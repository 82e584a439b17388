use scripteval::ast::{Catch, Expr, Module, Name, Opcode, Statement};
use scripteval::machine::Machine;
use scripteval::state::{Reply, Request, Signal, Status};
use scripteval::value::{ErrorKind, Value};

const PRINT: u64 = 1;
const FAIL: u64 = 2;

fn num(n: i32) -> Box<Expr> {
    Box::new(Expr::Integer(n))
}

fn float(x: f32) -> Box<Expr> {
    Box::new(Expr::Float(x.to_bits()))
}

fn text(s: &str) -> Box<Expr> {
    Box::new(Expr::Str(s.to_string()))
}

fn var(name: &str) -> Box<Expr> {
    Box::new(Expr::Variable(name.to_string()))
}

fn bin(l: Box<Expr>, op: Opcode, r: Box<Expr>) -> Box<Expr> {
    Box::new(Expr::BinaryOp(l, op, r))
}

fn list(items: Vec<Box<Expr>>) -> Box<Expr> {
    Box::new(Expr::List(items))
}

fn call(f: Box<Expr>, args: Vec<Box<Expr>>) -> Box<Expr> {
    Box::new(Expr::FunctionCall(f, args))
}

fn index(t: Box<Expr>, i: Box<Expr>) -> Box<Expr> {
    Box::new(Expr::ItemSubscription(t, i))
}

fn expr(e: Box<Expr>) -> Box<Statement> {
    Box::new(Statement::Expression(e))
}

fn assign(name: &str, e: Box<Expr>) -> Box<Statement> {
    Box::new(Statement::Assignment(name.to_string(), e))
}

fn ret(e: Box<Expr>) -> Box<Statement> {
    Box::new(Statement::Return(e))
}

fn fun(name: &str, params: &[&str], body: Vec<Box<Statement>>) -> Box<Statement> {
    let params: Vec<String> = params.iter().map(|p| p.to_string()).collect();
    Box::new(Statement::Function(name.to_string(), Box::new(params), body))
}

fn catch(name: Option<&str>, filter: Option<Box<Expr>>, body: Vec<Box<Statement>>) -> Box<Catch> {
    Box::new(Catch::Catch(name.map(|n| n.to_string()), filter, body))
}

fn float_answer(op: Opcode, left: u32, right: u32) -> Reply {
    let a = f32::from_bits(left);
    let b = f32::from_bits(right);
    let r = match op {
        Opcode::Add => a + b,
        Opcode::Sub => a - b,
        Opcode::Mul => a * b,
        Opcode::Div => a / b,
        Opcode::Pow => a.powf(b),
        _ => unreachable!(),
    };
    Reply::Value(Value::Float(r.to_bits()))
}

/// Runs the program to its end, answering the machine as a small host
/// would, and returns how it ended with what was printed.
fn run_with(module: &Module, limit: usize) -> (Signal, Vec<Value>, Machine<'_>) {
    let mut machine = Machine::new(module, limit);
    machine.define_global("print", Value::Native(PRINT));
    machine.define_global("fail", Value::Native(FAIL));
    machine.define_global("stranger", Value::Closure(99));
    let mut printed = Vec::new();
    loop {
        machine.run(100_000);
        match machine.status() {
            Status::Finished => {
                let result = machine.result().unwrap().clone();
                return (result, printed, machine);
            }
            Status::Waiting => {
                let reply = match machine.request().unwrap().clone() {
                    Request::Native { handle, args } => {
                        if handle == PRINT {
                            printed.extend(args);
                            Reply::Value(Value::Null)
                        } else {
                            assert_eq!(handle, FAIL);
                            Reply::Raise(ErrorKind::ArithmeticError, Value::List(args))
                        }
                    }
                    Request::Float { op, left, right } => float_answer(op, left, right),
                    Request::Import { name } => {
                        if name == "math" {
                            Reply::Value(Value::Str("module math".to_string()))
                        } else if name == "odd" {
                            Reply::Raise(ErrorKind::TypeError, Value::Integer(7))
                        } else {
                            Reply::Raise(ErrorKind::ImportError, Value::Str(name))
                        }
                    }
                    Request::Attribute { target, name } => {
                        if name == "odd" {
                            Reply::Raise(ErrorKind::NameError, Value::Integer(8))
                        } else if name == "length" {
                            match target {
                                Value::List(l) => Reply::Value(Value::Integer(l.len() as i32)),
                                _ => Reply::Raise(
                                    ErrorKind::AttributeError,
                                    Value::Error(ErrorKind::AttributeError),
                                ),
                            }
                        } else {
                            Reply::Raise(
                                ErrorKind::AttributeError,
                                Value::Error(ErrorKind::AttributeError),
                            )
                        }
                    }
                };
                assert!(machine.resume(reply));
            }
            Status::Running => panic!("the program did not end"),
        }
    }
}

fn run(module: &Module) -> (Signal, Vec<Value>, Machine<'_>) {
    run_with(module, 64)
}

fn raised(kind: ErrorKind) -> Signal {
    Signal::Raised(kind, Value::Error(kind))
}

#[test]
fn string_minus_float_is_a_type_error() {
    let module = Module { body: vec![expr(bin(text("str"), Opcode::Sub, float(36.2)))] };
    let (result, _, _) = run(&module);
    assert_eq!(result, raised(ErrorKind::TypeError));
}

#[test]
fn closure_captures_by_reference() {
    // fun make() { x = 1; fun inc() { x = x + 1; return x; }; return inc; }
    let make = fun(
        "make",
        &[],
        vec![
            assign("x", num(1)),
            fun(
                "inc",
                &[],
                vec![assign("x", bin(var("x"), Opcode::Add, num(1))), ret(var("x"))],
            ),
            ret(var("inc")),
        ],
    );
    let module = Module {
        body: vec![
            make,
            assign("f", call(var("make"), vec![])),
            assign("a", call(var("f"), vec![])),
            assign("b", call(var("f"), vec![])),
        ],
    };
    let (result, _, machine) = run(&module);
    assert_eq!(result, Signal::Normal(Value::Null));
    assert_eq!(machine.global("a"), Some(Value::Integer(2)));
    assert_eq!(machine.global("b"), Some(Value::Integer(3)));
    assert_eq!(machine.global("x"), None);
    assert_eq!(machine.depth(), 0);
}

#[test]
fn for_loop_accumulates_in_outer_scope() {
    // total = 0; for i in [1, 2, 3] { total = total + i; i = 100; seen = i; }
    let module = Module {
        body: vec![
            assign("total", num(0)),
            Box::new(Statement::For(
                "i".to_string(),
                list(vec![num(1), num(2), num(3)]),
                vec![
                    assign("total", bin(var("total"), Opcode::Add, var("i"))),
                    assign("i", num(100)),
                    assign("seen", var("i")),
                ],
            )),
        ],
    };
    let (result, _, machine) = run(&module);
    assert_eq!(result, Signal::Normal(Value::Null));
    assert_eq!(machine.global("total"), Some(Value::Integer(6)));
    assert_eq!(machine.global("i"), None);
    assert_eq!(machine.global("seen"), None);
}

#[test]
fn filtered_catch_handles_index_error_and_program_continues() {
    // try { [1, 2][5]; reached = 1; } catch e: IndexError { caught = e; }; after = 2;
    let module = Module {
        body: vec![
            assign("caught", num(0)),
            Box::new(Statement::Try(
                vec![expr(index(list(vec![num(1), num(2)]), num(5))), assign("reached", num(1))],
                vec![catch(Some("e"), Some(var("IndexError")), vec![assign("caught", var("e"))])],
            )),
            assign("after", num(2)),
        ],
    };
    let (result, _, machine) = run(&module);
    assert_eq!(result, Signal::Normal(Value::Null));
    assert_eq!(machine.global("caught"), Some(Value::Error(ErrorKind::IndexError)));
    assert_eq!(machine.global("after"), Some(Value::Integer(2)));
    assert_eq!(machine.global("reached"), None);
}

#[test]
fn unfiltered_catch_takes_what_a_mismatched_filter_left() {
    // try { "a" - 1; } catch IndexError { which = 1; } catch { which = 2; }
    let module = Module {
        body: vec![
            assign("which", num(0)),
            Box::new(Statement::Try(
                vec![expr(bin(text("a"), Opcode::Sub, num(1)))],
                vec![
                    catch(None, Some(var("IndexError")), vec![assign("which", num(1))]),
                    catch(None, None, vec![assign("which", num(2))]),
                ],
            )),
        ],
    };
    let (result, _, machine) = run(&module);
    assert_eq!(result, Signal::Normal(Value::Null));
    assert_eq!(machine.global("which"), Some(Value::Integer(2)));
}

#[test]
fn unmatched_error_propagates_out_of_try() {
    let module = Module {
        body: vec![
            Box::new(Statement::Try(
                vec![expr(var("missing"))],
                vec![catch(None, Some(var("IndexError")), vec![assign("which", num(1))])],
            )),
            assign("after", num(1)),
        ],
    };
    let (result, _, machine) = run(&module);
    assert_eq!(result, raised(ErrorKind::NameError));
    assert_eq!(machine.global("after"), None);
}

fn factorial() -> Box<Statement> {
    // fun fact(n) { if n <= 1 { return 1; } else { return n * fact(n - 1); } }
    fun(
        "fact",
        &["n"],
        vec![Box::new(Statement::If(
            bin(var("n"), Opcode::Le, num(1)),
            vec![ret(num(1))],
            Some(vec![ret(bin(
                var("n"),
                Opcode::Mul,
                call(var("fact"), vec![bin(var("n"), Opcode::Sub, num(1))]),
            ))]),
        ))],
    )
}

#[test]
fn recursive_factorial_of_five() {
    let module =
        Module { body: vec![factorial(), assign("r", call(var("fact"), vec![num(5)]))] };
    let (result, _, machine) = run(&module);
    assert_eq!(result, Signal::Normal(Value::Null));
    assert_eq!(machine.global("r"), Some(Value::Integer(120)));
    assert_eq!(machine.depth(), 0);
}

#[test]
fn unresolved_variable_is_a_name_error() {
    let module = Module { body: vec![assign("y", var("x"))] };
    let (result, _, machine) = run(&module);
    assert_eq!(result, raised(ErrorKind::NameError));
    assert_eq!(machine.global("y"), None);
}

#[test]
fn recursion_past_the_limit_is_a_stack_overflow() {
    let module =
        Module { body: vec![factorial(), assign("r", call(var("fact"), vec![num(50)]))] };
    let (result, _, machine) = run_with(&module, 10);
    assert_eq!(result, raised(ErrorKind::StackOverflow));
    assert_eq!(machine.depth(), 0);
    let (result, _, machine) = run_with(&module, 50);
    assert_eq!(result, Signal::Normal(Value::Null));
    assert_eq!(machine.global("r"), Some(Value::Integer(0)));
}

fn un(op: Opcode, e: Box<Expr>) -> Box<Expr> {
    Box::new(Expr::UnaryOp(op, e))
}

fn attr(t: Box<Expr>, name: &str) -> Box<Expr> {
    Box::new(Expr::AttrAccess(t, name.to_string()))
}

fn lambda(params: &[&str], body: Vec<Box<Statement>>) -> Box<Expr> {
    let params: Vec<String> = params.iter().map(|p| p.to_string()).collect();
    Box::new(Expr::Function("anonymous".to_string(), Box::new(params), body))
}

fn when(c: Box<Expr>, then: Vec<Box<Statement>>, otherwise: Option<Vec<Box<Statement>>>) -> Box<Statement> {
    Box::new(Statement::If(c, then, otherwise))
}

fn repeat(c: Box<Expr>, body: Vec<Box<Statement>>) -> Box<Statement> {
    Box::new(Statement::While(c, body))
}

fn each(v: &str, items: Box<Expr>, body: Vec<Box<Statement>>) -> Box<Statement> {
    Box::new(Statement::For(v.to_string(), items, body))
}

fn attempt(body: Vec<Box<Statement>>, catches: Vec<Box<Catch>>) -> Box<Statement> {
    Box::new(Statement::Try(body, catches))
}

fn print(args: Vec<Box<Expr>>) -> Box<Statement> {
    expr(call(var("print"), args))
}

fn ok() -> Signal {
    Signal::Normal(Value::Null)
}

#[test]
fn empty_program_ends_at_once() {
    let module = Module { body: vec![] };
    let mut machine = Machine::new(&module, 8);
    assert_eq!(machine.status(), Status::Running);
    assert_eq!(machine.result(), None);
    assert_eq!(machine.run(10), 1);
    assert_eq!(machine.status(), Status::Finished);
    assert_eq!(machine.result(), Some(&ok()));
    assert_eq!(machine.run(10), 0);
    machine.step();
    assert_eq!(machine.result(), Some(&ok()));
}

#[test]
fn one_expression_statement_takes_four_steps() {
    let module = Module { body: vec![expr(num(1))] };
    let mut machine = Machine::new(&module, 8);
    assert_eq!(machine.run(3), 3);
    assert_eq!(machine.status(), Status::Running);
    assert_eq!(machine.run(100), 1);
    assert_eq!(machine.status(), Status::Finished);
}

#[test]
fn error_kinds_are_bound_in_the_root_frame() {
    let module = Module { body: vec![] };
    let machine = Machine::new(&module, 8);
    assert_eq!(machine.global("TypeError"), Some(Value::Error(ErrorKind::TypeError)));
    assert_eq!(machine.global("NameError"), Some(Value::Error(ErrorKind::NameError)));
    assert_eq!(machine.global("ArityError"), Some(Value::Error(ErrorKind::ArityError)));
    assert_eq!(machine.global("IndexError"), Some(Value::Error(ErrorKind::IndexError)));
    assert_eq!(machine.global("AttributeError"), Some(Value::Error(ErrorKind::AttributeError)));
    assert_eq!(machine.global("ArithmeticError"), Some(Value::Error(ErrorKind::ArithmeticError)));
    assert_eq!(machine.global("ImportError"), Some(Value::Error(ErrorKind::ImportError)));
    assert_eq!(
        machine.global("InvariantViolation"),
        Some(Value::Error(ErrorKind::InvariantViolation))
    );
    assert_eq!(machine.global("StackOverflow"), Some(Value::Error(ErrorKind::StackOverflow)));
    assert_eq!(machine.global("print"), None);
}

#[test]
fn literals_evaluate_to_themselves() {
    let module = Module {
        body: vec![
            assign("a", Box::new(Expr::Boolean(true))),
            assign("b", num(-7)),
            assign("c", float(36.2)),
            assign("d", text("str")),
            assign("e", Box::new(Expr::Null)),
            assign("f", list(vec![num(1), text("x"), list(vec![])])),
        ],
    };
    let (result, _, machine) = run(&module);
    assert_eq!(result, ok());
    assert_eq!(machine.global("a"), Some(Value::Boolean(true)));
    assert_eq!(machine.global("b"), Some(Value::Integer(-7)));
    assert_eq!(machine.global("c"), Some(Value::Float(36.2f32.to_bits())));
    assert_eq!(machine.global("d"), Some(Value::Str("str".to_string())));
    assert_eq!(machine.global("e"), Some(Value::Null));
    assert_eq!(
        machine.global("f"),
        Some(Value::List(vec![
            Value::Integer(1),
            Value::Str("x".to_string()),
            Value::List(vec![])
        ]))
    );
}

#[test]
fn while_loop_runs_until_its_condition_is_false() {
    // n = 0; while n < 3 { n = n + 1; inner = n; }
    let module = Module {
        body: vec![
            assign("n", num(0)),
            repeat(
                bin(var("n"), Opcode::Lt, num(3)),
                vec![assign("n", bin(var("n"), Opcode::Add, num(1))), assign("inner", var("n"))],
            ),
        ],
    };
    let (result, _, machine) = run(&module);
    assert_eq!(result, ok());
    assert_eq!(machine.global("n"), Some(Value::Integer(3)));
    assert_eq!(machine.global("inner"), None);
}

#[test]
fn while_body_gets_a_fresh_frame_each_time() {
    // n = 0; while n < 2 { print(n); fresh = n; n = n + 1; }
    // A second iteration would find `fresh` if the frame were kept.
    let module = Module {
        body: vec![
            assign("n", num(0)),
            assign("leaks", num(0)),
            repeat(
                bin(var("n"), Opcode::Lt, num(2)),
                vec![
                    attempt(
                        vec![expr(var("fresh")), assign("leaks", num(1))],
                        vec![catch(None, Some(var("NameError")), vec![])],
                    ),
                    assign("fresh", var("n")),
                    assign("n", bin(var("n"), Opcode::Add, num(1))),
                ],
            ),
        ],
    };
    let (result, _, machine) = run(&module);
    assert_eq!(result, ok());
    assert_eq!(machine.global("leaks"), Some(Value::Integer(0)));
    assert_eq!(machine.global("n"), Some(Value::Integer(2)));
}

#[test]
fn endless_loop_runs_out_of_budget() {
    let module = Module { body: vec![repeat(num(3), vec![])] };
    let mut machine = Machine::new(&module, 8);
    assert_eq!(machine.run(1000), 1000);
    assert_eq!(machine.status(), Status::Running);
    assert_eq!(machine.result(), None);
    assert_eq!(machine.request(), None);
    assert_eq!(machine.run(0), 0);
}

#[test]
fn if_branches_on_truthiness() {
    let module = Module {
        body: vec![
            when(num(0), vec![assign("a", num(1))], Some(vec![assign("a", num(2))])),
            when(text("x"), vec![assign("b", num(1))], Some(vec![assign("b", num(2))])),
            when(list(vec![]), vec![assign("c", num(1))], None),
            when(Box::new(Expr::Null), vec![assign("d", num(1))], Some(vec![])),
            when(float(-0.0), vec![assign("e", num(1))], Some(vec![assign("e", num(2))])),
        ],
    };
    let (result, _, machine) = run(&module);
    assert_eq!(result, ok());
    assert_eq!(machine.global("a"), Some(Value::Integer(2)));
    assert_eq!(machine.global("b"), Some(Value::Integer(1)));
    assert_eq!(machine.global("c"), None);
    assert_eq!(machine.global("d"), None);
    assert_eq!(machine.global("e"), Some(Value::Integer(2)));
}

#[test]
fn native_function_gets_the_evaluated_arguments() {
    let module = Module {
        body: vec![assign(
            "r",
            call(var("print"), vec![text("hi"), bin(num(1), Opcode::Add, num(2))]),
        )],
    };
    let (result, printed, machine) = run(&module);
    assert_eq!(result, ok());
    assert_eq!(printed, vec![Value::Str("hi".to_string()), Value::Integer(3)]);
    assert_eq!(machine.global("r"), Some(Value::Null));
}

#[test]
fn native_function_is_asked_of_the_host() {
    let module = Module { body: vec![print(vec![num(7)])] };
    let mut machine = Machine::new(&module, 8);
    machine.define_global("print", Value::Native(PRINT));
    machine.run(1000);
    assert_eq!(machine.status(), Status::Waiting);
    assert_eq!(
        machine.request(),
        Some(&Request::Native { handle: PRINT, args: vec![Value::Integer(7)] })
    );
    assert_eq!(machine.result(), None);
    assert_eq!(machine.run(1000), 0);
    machine.step();
    assert_eq!(machine.status(), Status::Waiting);
    assert!(machine.resume(Reply::Value(Value::Null)));
    assert!(!machine.resume(Reply::Value(Value::Null)));
    machine.run(1000);
    assert_eq!(machine.result(), Some(&ok()));
    assert!(!machine.resume(Reply::Value(Value::Integer(1))));
    assert_eq!(machine.result(), Some(&ok()));
}

#[test]
fn native_failure_is_an_error_of_the_program() {
    // try { fail(1, 2); } catch e: ArithmeticError { caught = e; }
    let module = Module {
        body: vec![
            assign("caught", num(0)),
            attempt(
                vec![expr(call(var("fail"), vec![num(1), num(2)]))],
                vec![catch(
                    Some("e"),
                    Some(var("ArithmeticError")),
                    vec![assign("caught", var("e"))],
                )],
            ),
        ],
    };
    let (result, _, machine) = run(&module);
    assert_eq!(result, ok());
    assert_eq!(
        machine.global("caught"),
        Some(Value::List(vec![Value::Integer(1), Value::Integer(2)]))
    );
}

#[test]
fn operands_and_elements_are_evaluated_left_to_right() {
    // x = [print(1), print(2)] + [print(3)];
    let module = Module {
        body: vec![assign(
            "x",
            bin(
                list(vec![call(var("print"), vec![num(1)]), call(var("print"), vec![num(2)])]),
                Opcode::Add,
                list(vec![call(var("print"), vec![num(3)])]),
            ),
        )],
    };
    let (result, printed, machine) = run(&module);
    assert_eq!(result, ok());
    assert_eq!(printed, vec![Value::Integer(1), Value::Integer(2), Value::Integer(3)]);
    assert_eq!(
        machine.global("x"),
        Some(Value::List(vec![Value::Null, Value::Null, Value::Null]))
    );
}

#[test]
fn assignment_evaluates_before_it_binds() {
    // x = x;  fails, and binds nothing
    let module = Module { body: vec![assign("x", var("x"))] };
    let (result, _, machine) = run(&module);
    assert_eq!(result, raised(ErrorKind::NameError));
    assert_eq!(machine.global("x"), None);
}

#[test]
fn wrong_number_of_arguments_is_an_arity_error() {
    let module = Module {
        body: vec![fun("f", &["a"], vec![ret(var("a"))]), expr(call(var("f"), vec![]))],
    };
    let (result, _, _) = run(&module);
    assert_eq!(result, raised(ErrorKind::ArityError));
    let module = Module {
        body: vec![
            fun("f", &["a"], vec![ret(var("a"))]),
            expr(call(var("f"), vec![num(1), num(2)])),
        ],
    };
    let (result, _, _) = run(&module);
    assert_eq!(result, raised(ErrorKind::ArityError));
}

#[test]
fn calling_what_is_no_function_is_a_type_error() {
    let module = Module {
        body: vec![assign("x", num(1)), expr(call(var("x"), vec![call(var("print"), vec![num(5)])]))],
    };
    let (result, printed, _) = run(&module);
    assert_eq!(result, raised(ErrorKind::TypeError));
    assert_eq!(printed, vec![]);
}

#[test]
fn closure_of_another_machine_is_an_invariant_violation() {
    let module = Module { body: vec![expr(call(var("stranger"), vec![]))] };
    let (result, _, _) = run(&module);
    assert_eq!(result, raised(ErrorKind::InvariantViolation));
}

#[test]
fn parse_error_node_is_an_invariant_violation_that_nothing_catches() {
    let module = Module {
        body: vec![
            assign("caught", num(0)),
            attempt(
                vec![expr(Box::new(Expr::Error))],
                vec![catch(None, None, vec![assign("caught", num(1))])],
            ),
            assign("after", num(1)),
        ],
    };
    let (result, _, machine) = run(&module);
    assert_eq!(result, raised(ErrorKind::InvariantViolation));
    assert_eq!(machine.global("caught"), Some(Value::Integer(0)));
    assert_eq!(machine.global("after"), None);
}

#[test]
fn return_outside_a_function_ends_the_program() {
    let module = Module { body: vec![ret(num(5)), assign("after", num(1))] };
    let (result, _, machine) = run(&module);
    assert_eq!(result, Signal::Returning(Value::Integer(5)));
    assert_eq!(machine.global("after"), None);
}

#[test]
fn function_without_return_gives_null() {
    let module = Module {
        body: vec![fun("f", &[], vec![assign("x", num(1))]), assign("r", call(var("f"), vec![]))],
    };
    let (result, _, machine) = run(&module);
    assert_eq!(result, ok());
    assert_eq!(machine.global("r"), Some(Value::Null));
    assert_eq!(machine.global("x"), None);
}

#[test]
fn float_arithmetic_goes_through_the_host() {
    let module = Module {
        body: vec![
            assign("a", bin(num(1), Opcode::Add, float(2.5))),
            assign("b", bin(float(2.0), Opcode::Pow, num(3))),
            assign("c", bin(float(1.0), Opcode::Div, float(0.0))),
            assign("d", bin(float(1.5), Opcode::Lt, num(2))),
            assign("e", un(Opcode::Sub, float(1.5))),
        ],
    };
    let (result, _, machine) = run(&module);
    assert_eq!(result, ok());
    assert_eq!(machine.global("a"), Some(Value::Float(3.5f32.to_bits())));
    assert_eq!(machine.global("b"), Some(Value::Float(8.0f32.to_bits())));
    assert_eq!(machine.global("c"), Some(Value::Float(f32::INFINITY.to_bits())));
    assert_eq!(machine.global("d"), Some(Value::Boolean(true)));
    assert_eq!(machine.global("e"), Some(Value::Float((-1.5f32).to_bits())));
}

#[test]
fn float_request_names_the_operator_and_both_patterns() {
    let module = Module { body: vec![expr(bin(num(3), Opcode::Mul, float(0.5)))] };
    let mut machine = Machine::new(&module, 8);
    machine.run(1000);
    assert_eq!(
        machine.request(),
        Some(&Request::Float {
            op: Opcode::Mul,
            left: 3.0f32.to_bits(),
            right: 0.5f32.to_bits()
        })
    );
}

#[test]
fn for_over_what_is_no_list_is_a_type_error() {
    let module = Module { body: vec![each("i", num(3), vec![])] };
    let (result, _, _) = run(&module);
    assert_eq!(result, raised(ErrorKind::TypeError));
    let module = Module { body: vec![each("i", text("abc"), vec![])] };
    let (result, _, _) = run(&module);
    assert_eq!(result, raised(ErrorKind::TypeError));
}

#[test]
fn for_visits_the_elements_in_order() {
    let module = Module {
        body: vec![
            each("i", list(vec![num(3), num(1), num(2)]), vec![print(vec![var("i")])]),
            each("i", list(vec![]), vec![print(vec![num(0)])]),
        ],
    };
    let (result, printed, _) = run(&module);
    assert_eq!(result, ok());
    assert_eq!(printed, vec![Value::Integer(3), Value::Integer(1), Value::Integer(2)]);
}

#[test]
fn scoping_is_lexical() {
    // fun get() { return y; }  fun caller(y) { return get(); }  caller(5);
    let module = Module {
        body: vec![
            fun("get", &[], vec![ret(var("y"))]),
            fun("caller", &["y"], vec![ret(call(var("get"), vec![]))]),
            assign("r", call(var("caller"), vec![num(5)])),
        ],
    };
    let (result, _, machine) = run(&module);
    assert_eq!(result, raised(ErrorKind::NameError));
    assert_eq!(machine.depth(), 0);
}

#[test]
fn parameters_shadow_outer_names() {
    // x = 1; fun f(x) { x = x + 1; return x; }  r = f(10);
    let module = Module {
        body: vec![
            assign("x", num(1)),
            fun(
                "f",
                &["x"],
                vec![assign("x", bin(var("x"), Opcode::Add, num(1))), ret(var("x"))],
            ),
            assign("r", call(var("f"), vec![num(10)])),
        ],
    };
    let (result, _, machine) = run(&module);
    assert_eq!(result, ok());
    assert_eq!(machine.global("r"), Some(Value::Integer(11)));
    assert_eq!(machine.global("x"), Some(Value::Integer(1)));
}

#[test]
fn later_parameter_of_the_same_name_wins() {
    let module = Module {
        body: vec![
            fun("f", &["a", "a"], vec![ret(var("a"))]),
            assign("r", call(var("f"), vec![num(1), num(2)])),
        ],
    };
    let (result, _, machine) = run(&module);
    assert_eq!(result, ok());
    assert_eq!(machine.global("r"), Some(Value::Integer(2)));
}

#[test]
fn function_literal_is_a_value_and_binds_no_name() {
    let module = Module {
        body: vec![
            assign("f", lambda(&["a"], vec![ret(bin(var("a"), Opcode::Mul, num(2)))])),
            assign("r", call(var("f"), vec![num(4)])),
            assign("s", call(lambda(&[], vec![ret(num(9))]), vec![])),
        ],
    };
    let (result, _, machine) = run(&module);
    assert_eq!(result, ok());
    assert_eq!(machine.global("r"), Some(Value::Integer(8)));
    assert_eq!(machine.global("s"), Some(Value::Integer(9)));
    assert_eq!(machine.global("f"), Some(Value::Closure(0)));
    assert_eq!(machine.global("anonymous"), None);
}

#[test]
fn each_call_of_the_maker_gives_its_own_counter() {
    let make = fun(
        "make",
        &[],
        vec![
            assign("x", num(1)),
            fun(
                "inc",
                &[],
                vec![assign("x", bin(var("x"), Opcode::Add, num(1))), ret(var("x"))],
            ),
            ret(var("inc")),
        ],
    );
    let module = Module {
        body: vec![
            make,
            assign("f", call(var("make"), vec![])),
            assign("g", call(var("make"), vec![])),
            assign("a", call(var("f"), vec![])),
            assign("b", call(var("f"), vec![])),
            assign("c", call(var("g"), vec![])),
        ],
    };
    let (result, _, machine) = run(&module);
    assert_eq!(result, ok());
    assert_eq!(machine.global("a"), Some(Value::Integer(2)));
    assert_eq!(machine.global("b"), Some(Value::Integer(3)));
    assert_eq!(machine.global("c"), Some(Value::Integer(2)));
}

#[test]
fn return_unwinds_loops_up_to_the_call() {
    // fun first(l) { for i in l { while 1 { return i; } } return 0; }
    let module = Module {
        body: vec![
            fun(
                "first",
                &["l"],
                vec![
                    each("i", var("l"), vec![repeat(num(1), vec![ret(var("i"))])]),
                    ret(num(0)),
                ],
            ),
            assign("r", call(var("first"), vec![list(vec![num(7), num(8)])])),
            assign("s", call(var("first"), vec![list(vec![])])),
        ],
    };
    let (result, _, machine) = run(&module);
    assert_eq!(result, ok());
    assert_eq!(machine.global("r"), Some(Value::Integer(7)));
    assert_eq!(machine.global("s"), Some(Value::Integer(0)));
    assert_eq!(machine.depth(), 0);
}

#[test]
fn return_passes_through_try() {
    // fun f() { try { return 1; } catch { return 2; } return 3; }
    let module = Module {
        body: vec![
            fun(
                "f",
                &[],
                vec![
                    attempt(vec![ret(num(1))], vec![catch(None, None, vec![ret(num(2))])]),
                    ret(num(3)),
                ],
            ),
            assign("r", call(var("f"), vec![])),
        ],
    };
    let (result, _, machine) = run(&module);
    assert_eq!(result, ok());
    assert_eq!(machine.global("r"), Some(Value::Integer(1)));
}

#[test]
fn stack_overflow_can_be_caught() {
    // fun f() { return f(); }  c = 0; try { f(); } catch StackOverflow { c = 1; }
    let module = Module {
        body: vec![
            fun("f", &[], vec![ret(call(var("f"), vec![]))]),
            assign("c", num(0)),
            attempt(
                vec![expr(call(var("f"), vec![]))],
                vec![catch(None, Some(var("StackOverflow")), vec![assign("c", num(1))])],
            ),
        ],
    };
    let (result, _, machine) = run_with(&module, 20);
    assert_eq!(result, ok());
    assert_eq!(machine.global("c"), Some(Value::Integer(1)));
    assert_eq!(machine.depth(), 0);
}

#[test]
fn limit_of_zero_allows_no_call() {
    let module =
        Module { body: vec![fun("f", &[], vec![]), expr(call(var("f"), vec![]))] };
    let (result, _, _) = run_with(&module, 0);
    assert_eq!(result, raised(ErrorKind::StackOverflow));
    let (result, _, _) = run_with(&module, 1);
    assert_eq!(result, ok());
}

#[test]
fn handlers_are_tried_in_order() {
    // try { [][0]; } catch TypeError { w = 1; } catch IndexError { w = 2; } catch { w = 3; }
    let module = Module {
        body: vec![
            assign("w", num(0)),
            attempt(
                vec![expr(index(list(vec![]), num(0)))],
                vec![
                    catch(None, Some(var("TypeError")), vec![assign("w", num(1))]),
                    catch(None, Some(var("IndexError")), vec![assign("w", num(2))]),
                    catch(None, None, vec![assign("w", num(3))]),
                ],
            ),
        ],
    };
    let (result, _, machine) = run(&module);
    assert_eq!(result, ok());
    assert_eq!(machine.global("w"), Some(Value::Integer(2)));
}

#[test]
fn handlers_are_skipped_when_the_body_succeeds() {
    let module = Module {
        body: vec![
            assign("w", num(0)),
            attempt(
                vec![assign("w", num(1))],
                vec![catch(None, None, vec![assign("w", num(2))])],
            ),
        ],
    };
    let (result, _, machine) = run(&module);
    assert_eq!(result, ok());
    assert_eq!(machine.global("w"), Some(Value::Integer(1)));
}

#[test]
fn try_body_and_handler_have_frames_of_their_own() {
    let module = Module {
        body: vec![attempt(
            vec![assign("inside", num(1)), expr(var("missing"))],
            vec![catch(Some("e"), None, vec![assign("handled", var("e"))])],
        )],
    };
    let (result, _, machine) = run(&module);
    assert_eq!(result, ok());
    assert_eq!(machine.global("inside"), None);
    assert_eq!(machine.global("handled"), None);
    assert_eq!(machine.global("e"), None);
}

#[test]
fn error_in_a_handler_goes_to_the_enclosing_try() {
    // try { try { x; } catch { [][1]; } } catch IndexError { w = 1; }
    let module = Module {
        body: vec![
            assign("w", num(0)),
            attempt(
                vec![attempt(
                    vec![expr(var("x"))],
                    vec![catch(None, None, vec![expr(index(list(vec![]), num(1)))])],
                )],
                vec![catch(None, Some(var("IndexError")), vec![assign("w", num(1))])],
            ),
        ],
    };
    let (result, _, machine) = run(&module);
    assert_eq!(result, ok());
    assert_eq!(machine.global("w"), Some(Value::Integer(1)));
}

#[test]
fn error_in_a_filter_replaces_the_error() {
    // try { [][1]; } catch undefined { } catch { }
    let module = Module {
        body: vec![attempt(
            vec![expr(index(list(vec![]), num(1)))],
            vec![catch(None, Some(var("undefined")), vec![]), catch(None, None, vec![])],
        )],
    };
    let (result, _, _) = run(&module);
    assert_eq!(result, raised(ErrorKind::NameError));
}

#[test]
fn filter_may_name_the_value_that_the_error_carries() {
    // try { import nope; } catch e: "nope" { w = e; }
    let module = Module {
        body: vec![
            assign("w", num(0)),
            attempt(
                vec![Box::new(Statement::Import(vec![Box::new(Name::Name("nope".to_string()))]))],
                vec![
                    catch(None, Some(text("other")), vec![assign("w", num(1))]),
                    catch(Some("e"), Some(text("nope")), vec![assign("w", var("e"))]),
                ],
            ),
        ],
    };
    let (result, _, machine) = run(&module);
    assert_eq!(result, ok());
    assert_eq!(machine.global("w"), Some(Value::Str("nope".to_string())));
}

#[test]
fn import_binds_each_name_or_its_alias() {
    let module = Module {
        body: vec![Box::new(Statement::Import(vec![
            Box::new(Name::Name("math".to_string())),
            Box::new(Name::Alias("math".to_string(), "m".to_string())),
        ]))],
    };
    let (result, _, machine) = run(&module);
    assert_eq!(result, ok());
    assert_eq!(machine.global("math"), Some(Value::Str("module math".to_string())));
    assert_eq!(machine.global("m"), Some(Value::Str("module math".to_string())));
}

#[test]
fn import_asks_the_host_for_the_module() {
    let module = Module {
        body: vec![Box::new(Statement::Import(vec![Box::new(Name::Alias(
            "math".to_string(),
            "m".to_string(),
        ))]))],
    };
    let mut machine = Machine::new(&module, 8);
    machine.run(100);
    assert_eq!(machine.request(), Some(&Request::Import { name: "math".to_string() }));
}

#[test]
fn failed_import_is_an_import_error() {
    let module = Module {
        body: vec![
            Box::new(Statement::Import(vec![
                Box::new(Name::Name("math".to_string())),
                Box::new(Name::Name("nope".to_string())),
                Box::new(Name::Alias("math".to_string(), "late".to_string())),
            ])),
            assign("after", num(1)),
        ],
    };
    let (result, _, machine) = run(&module);
    assert_eq!(result, Signal::Raised(ErrorKind::ImportError, Value::Str("nope".to_string())));
    assert_eq!(machine.global("math"), Some(Value::Str("module math".to_string())));
    assert_eq!(machine.global("late"), None);
    assert_eq!(machine.global("after"), None);
}

#[test]
fn empty_import_does_nothing() {
    let module = Module { body: vec![Box::new(Statement::Import(vec![])), assign("a", num(1))] };
    let (result, _, machine) = run(&module);
    assert_eq!(result, ok());
    assert_eq!(machine.global("a"), Some(Value::Integer(1)));
}

#[test]
fn attribute_is_asked_of_the_host() {
    let module = Module {
        body: vec![assign("n", attr(list(vec![num(1), num(2), num(3)]), "length"))],
    };
    let (result, _, machine) = run(&module);
    assert_eq!(result, ok());
    assert_eq!(machine.global("n"), Some(Value::Integer(3)));
    let module = Module { body: vec![expr(attr(text("s"), "myattr"))] };
    let mut machine = Machine::new(&module, 8);
    machine.run(100);
    assert_eq!(
        machine.request(),
        Some(&Request::Attribute { target: Value::Str("s".to_string()), name: "myattr".to_string() })
    );
}

#[test]
fn unresolved_attribute_is_an_attribute_error() {
    let module = Module { body: vec![expr(attr(text("Hello world!"), "myattr"))] };
    let (result, _, _) = run(&module);
    assert_eq!(result, raised(ErrorKind::AttributeError));
}

#[test]
fn subscript_in_a_program() {
    let module = Module {
        body: vec![
            assign("l", list(vec![num(10), num(20), num(30)])),
            assign("a", index(var("l"), num(2))),
            assign("b", index(var("l"), bin(num(1), Opcode::Sub, num(1)))),
        ],
    };
    let (result, _, machine) = run(&module);
    assert_eq!(result, ok());
    assert_eq!(machine.global("a"), Some(Value::Integer(30)));
    assert_eq!(machine.global("b"), Some(Value::Integer(10)));
    let module = Module { body: vec![expr(index(list(vec![num(1)]), float(0.0)))] };
    let (result, _, _) = run(&module);
    assert_eq!(result, raised(ErrorKind::TypeError));
}

#[test]
fn unary_plus_on_a_string_is_a_type_error() {
    let module = Module { body: vec![print(vec![un(Opcode::Add, text("Hello world!"))])] };
    let (result, printed, _) = run(&module);
    assert_eq!(result, raised(ErrorKind::TypeError));
    assert_eq!(printed, vec![]);
    let module = Module { body: vec![print(vec![un(Opcode::Sub, text("Hello world!"))])] };
    let (result, _, _) = run(&module);
    assert_eq!(result, raised(ErrorKind::TypeError));
    let module = Module { body: vec![print(vec![un(Opcode::Sub, num(3))])] };
    let (result, printed, _) = run(&module);
    assert_eq!(result, ok());
    assert_eq!(printed, vec![Value::Integer(-3)]);
}

#[test]
fn list_plus_number_is_a_type_error() {
    // [1, 2, 3, 4] + 22 * 22 * 23
    let module = Module {
        body: vec![expr(bin(
            list(vec![num(1), num(2), num(3), num(4)]),
            Opcode::Add,
            bin(bin(num(22), Opcode::Mul, num(22)), Opcode::Mul, num(23)),
        ))],
    };
    let (result, _, _) = run(&module);
    assert_eq!(result, raised(ErrorKind::TypeError));
}

#[test]
fn division_by_zero_in_a_program_can_be_caught() {
    let module = Module {
        body: vec![
            assign("w", num(0)),
            attempt(
                vec![assign("w", bin(num(1), Opcode::Div, num(0)))],
                vec![catch(Some("e"), Some(var("ArithmeticError")), vec![assign("w", var("e"))])],
            ),
            assign("q", bin(bin(num(7), Opcode::Div, num(2)), Opcode::Mul, num(2))),
            assign("p", bin(num(5), Opcode::Pow, num(3))),
        ],
    };
    let (result, _, machine) = run(&module);
    assert_eq!(result, ok());
    assert_eq!(machine.global("w"), Some(Value::Error(ErrorKind::ArithmeticError)));
    assert_eq!(machine.global("q"), Some(Value::Integer(6)));
    assert_eq!(machine.global("p"), Some(Value::Integer(125)));
}

#[test]
fn function_declaration_binds_in_the_current_frame() {
    // fun outer() { fun helper() { return 1; }  return helper(); }  outer(); helper();
    let module = Module {
        body: vec![
            fun(
                "outer",
                &[],
                vec![fun("helper", &[], vec![ret(num(1))]), ret(call(var("helper"), vec![]))],
            ),
            assign("r", call(var("outer"), vec![])),
            expr(call(var("helper"), vec![])),
        ],
    };
    let (result, _, machine) = run(&module);
    assert_eq!(result, raised(ErrorKind::NameError));
    assert_eq!(machine.global("r"), Some(Value::Integer(1)));
}

#[test]
fn global_defined_by_the_host_is_seen_by_the_program() {
    let module = Module { body: vec![assign("y", bin(var("seed"), Opcode::Add, num(1)))] };
    let mut machine = Machine::new(&module, 8);
    machine.define_global("seed", Value::Integer(41));
    machine.run(1000);
    assert_eq!(machine.result(), Some(&ok()));
    assert_eq!(machine.global("y"), Some(Value::Integer(42)));
    assert_eq!(machine.global("seed"), Some(Value::Integer(41)));
}

#[test]
fn assignment_of_a_sum_takes_nine_steps() {
    let module = Module { body: vec![assign("x", bin(num(1), Opcode::Add, num(2)))] };
    let mut machine = Machine::new(&module, 8);
    assert_eq!(machine.run(100), 9);
    assert_eq!(machine.result(), Some(&ok()));
    assert_eq!(machine.global("x"), Some(Value::Integer(3)));
}

#[test]
fn float_sum_takes_six_steps_an_answer_and_two_steps() {
    let module = Module { body: vec![ret(bin(float(1.5), Opcode::Add, num(2)))] };
    let mut machine = Machine::new(&module, 8);
    assert_eq!(machine.run(100), 6);
    assert_eq!(
        machine.request(),
        Some(&Request::Float {
            op: Opcode::Add,
            left: 1.5f32.to_bits(),
            right: 2.0f32.to_bits()
        })
    );
    assert!(machine.resume(Reply::Value(Value::Float(3.5f32.to_bits()))));
    assert_eq!(machine.run(100), 2);
    assert_eq!(machine.result(), Some(&Signal::Returning(Value::Float(3.5f32.to_bits()))));
}

#[test]
fn call_of_an_empty_function_takes_ten_steps() {
    // fun f() { }  f();
    let module = Module { body: vec![fun("f", &[], vec![]), expr(call(var("f"), vec![]))] };
    let mut machine = Machine::new(&module, 8);
    assert_eq!(machine.run(100), 10);
    assert_eq!(machine.result(), Some(&ok()));
}

#[test]
fn failure_of_the_host_to_resolve_is_of_the_kind_of_the_request() {
    let module = Module {
        body: vec![Box::new(Statement::Import(vec![Box::new(Name::Name("odd".to_string()))]))],
    };
    let (result, _, _) = run(&module);
    assert_eq!(result, Signal::Raised(ErrorKind::ImportError, Value::Integer(7)));
    let module = Module { body: vec![expr(attr(num(1), "odd"))] };
    let (result, _, _) = run(&module);
    assert_eq!(result, Signal::Raised(ErrorKind::AttributeError, Value::Integer(8)));
    // try { 1.odd; } catch e: AttributeError { w = e; }
    let module = Module {
        body: vec![
            assign("w", num(0)),
            attempt(
                vec![expr(attr(num(1), "odd"))],
                vec![
                    catch(None, Some(var("NameError")), vec![assign("w", num(1))]),
                    catch(Some("e"), Some(var("AttributeError")), vec![assign("w", var("e"))]),
                ],
            ),
        ],
    };
    let (result, _, machine) = run(&module);
    assert_eq!(result, ok());
    assert_eq!(machine.global("w"), Some(Value::Integer(8)));
}

#[test]
fn member_takes_seven_steps_and_an_answer() {
    // return 1.size;
    let module = Module { body: vec![ret(attr(num(1), "size"))] };
    let mut machine = Machine::new(&module, 8);
    assert_eq!(machine.run(100), 4);
    assert_eq!(
        machine.request(),
        Some(&Request::Attribute { target: Value::Integer(1), name: "size".to_string() })
    );
    assert!(machine.resume(Reply::Value(Value::Integer(9))));
    assert_eq!(machine.run(100), 3);
    assert_eq!(machine.result(), Some(&Signal::Returning(Value::Integer(9))));
}
