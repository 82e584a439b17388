use std::fmt::{Debug, Error, Formatter};

use scripteval::ast::{Catch, Expr, Name, Opcode, Statement};
use scripteval::print::{catch_glyphs, expr_glyphs, statement_glyphs, Glyph};

/// The text of the glyphs, with the numbers printed.
fn text(glyphs: Vec<Glyph>) -> String {
    let mut out = String::new();
    for g in glyphs {
        match g {
            Glyph::Char(code) => out.push(char::from_u32(code).unwrap()),
            Glyph::Float(bits) => out.push_str(&format!("{:#?}", f32::from_bits(bits))),
        }
    }
    out
}

// A tree that prints itself through the formatter of the standard library,
// against which the printed forms are held.

struct ShownOp(Opcode);

enum Shown {
    Boolean(bool),
    Integer(i32),
    Float(f32),
    BinaryOp(Box<Shown>, ShownOp, Box<Shown>),
    UnaryOp(ShownOp, Box<Shown>),
    Error,
    Str(String),
    List(Vec<Box<Shown>>),
    Variable(String),
    FunctionCall(Box<Shown>, Vec<Box<Shown>>),
    ItemSubscription(Box<Shown>, Box<Shown>),
    AttrAccess(Box<Shown>, String),
    Function(String, Box<Vec<String>>, Vec<Box<ShownStatement>>),
    Null,
}

enum ShownStatement {
    Expression(Box<Shown>),
    If(Box<Shown>, Vec<Box<ShownStatement>>, Option<Vec<Box<ShownStatement>>>),
    Function(String, Box<Vec<String>>, Vec<Box<ShownStatement>>),
    Assignment(String, Box<Shown>),
    Return(Box<Shown>),
    While(Box<Shown>, Vec<Box<ShownStatement>>),
    For(String, Box<Shown>, Vec<Box<ShownStatement>>),
    Import(Vec<Box<ShownName>>),
    Try(Vec<Box<ShownStatement>>, Vec<Box<ShownCatch>>),
}

struct ShownCatch(Option<String>, Option<Box<Shown>>, Vec<Box<ShownStatement>>);

enum ShownName {
    Name(String),
    Alias(String, String),
}

impl Debug for ShownOp {
    fn fmt(&self, fmt: &mut Formatter) -> Result<(), Error> {
        fmt.write_str(&format!("Op::{:?}", self.0))
    }
}

impl Debug for ShownName {
    fn fmt(&self, fmt: &mut Formatter) -> Result<(), Error> {
        match self {
            ShownName::Name(name) => fmt.write_str(&format!("Name({:#?})", name)),
            ShownName::Alias(name, alias) => {
                fmt.write_str(&format!("Alias({:#?}, {:#?})", name, alias))
            }
        }
    }
}

impl Debug for Shown {
    fn fmt(&self, fmt: &mut Formatter) -> Result<(), Error> {
        let text = match self {
            Shown::Integer(n) => format!("Integer({:#?})", n),
            Shown::Float(n) => format!("Float({:#?})", n),
            Shown::Boolean(b) => format!("Boolean({:#?})", b),
            Shown::BinaryOp(l, op, r) => format!("BinaryOp({:#?}, {:#?}, {:#?})", l, op, r),
            Shown::UnaryOp(op, r) => format!("UnaryOp({:#?}, {:#?})", op, r),
            Shown::Str(s) => format!("Str({:#?})", s),
            Shown::List(l) => format!("List({:#?})", l),
            Shown::Variable(v) => format!("Variable({:#})", v),
            Shown::FunctionCall(fun, args) => format!("FunctionCall({:#?}, args={:#?})", fun, args),
            Shown::ItemSubscription(expr, index) => {
                format!("ItemSubscription({:#?}, index={:#?})", expr, index)
            }
            Shown::AttrAccess(expr, attr) => format!("AttrAccess({:#?}, attr={:#?})", expr, attr),
            Shown::Error => format!("Error"),
            Shown::Function(name, args, body) => {
                format!("Function({:#?}, args={:#?}, body={:#?}, )", name, args, body)
            }
            Shown::Null => format!("None"),
        };
        fmt.write_str(&text)
    }
}

impl Debug for ShownStatement {
    fn fmt(&self, fmt: &mut Formatter) -> Result<(), Error> {
        let text = match self {
            ShownStatement::Expression(expr) => format!("Expression({:#?})", expr),
            ShownStatement::If(cond, body, elsebody) => {
                format!("If(cond=({:#?}), body={:#?}, elsebody={:#?})", cond, body, elsebody)
            }
            ShownStatement::Function(name, args, body) => {
                format!("Function(name=({:#?}), args={:#?}, body={:#?})", name, args, body)
            }
            ShownStatement::Assignment(name, value) => {
                format!("Assignment(name=({:#?}), value={:#?})", name, value)
            }
            ShownStatement::Return(expr) => format!("Return({:#?})", expr),
            ShownStatement::While(cond, body) => {
                format!("While(cond=({:#?}), body={:#?})", cond, body)
            }
            ShownStatement::For(name, value, body) => {
                format!("For(name=({:#?}), value={:#?}, body={:#?})", name, value, body)
            }
            ShownStatement::Import(imports) => format!("Import(imports=({:#?}))", imports),
            ShownStatement::Try(stmt, handlers) => format!("Try({:#?}, {:#?})", stmt, handlers),
        };
        fmt.write_str(&text)
    }
}

impl Debug for ShownCatch {
    fn fmt(&self, fmt: &mut Formatter) -> Result<(), Error> {
        fmt.write_str(&format!("Catch({:#?}, {:#?}, {:#?})", self.0, self.1, self.2))
    }
}

fn show(e: &Expr) -> Box<Shown> {
    Box::new(match e {
        Expr::Boolean(b) => Shown::Boolean(*b),
        Expr::Integer(n) => Shown::Integer(*n),
        Expr::Float(bits) => Shown::Float(f32::from_bits(*bits)),
        Expr::BinaryOp(l, op, r) => Shown::BinaryOp(show(l), ShownOp(*op), show(r)),
        Expr::UnaryOp(op, r) => Shown::UnaryOp(ShownOp(*op), show(r)),
        Expr::Error => Shown::Error,
        Expr::Str(s) => Shown::Str(s.clone()),
        Expr::List(l) => Shown::List(l.iter().map(|e| show(e)).collect()),
        Expr::Variable(v) => Shown::Variable(v.clone()),
        Expr::FunctionCall(f, args) => {
            Shown::FunctionCall(show(f), args.iter().map(|e| show(e)).collect())
        }
        Expr::ItemSubscription(t, i) => Shown::ItemSubscription(show(t), show(i)),
        Expr::AttrAccess(t, attr) => Shown::AttrAccess(show(t), attr.clone()),
        Expr::Function(name, params, body) => {
            Shown::Function(name.clone(), Box::new((**params).clone()), show_body(body))
        }
        Expr::Null => Shown::Null,
    })
}

fn show_body(body: &Vec<Box<Statement>>) -> Vec<Box<ShownStatement>> {
    body.iter().map(|s| show_statement(s)).collect()
}

fn show_catch(c: &Catch) -> Box<ShownCatch> {
    match c {
        Catch::Catch(name, filter, body) => Box::new(ShownCatch(
            name.clone(),
            filter.as_ref().map(|f| show(f)),
            show_body(body),
        )),
    }
}

fn show_statement(s: &Statement) -> Box<ShownStatement> {
    Box::new(match s {
        Statement::Expression(e) => ShownStatement::Expression(show(e)),
        Statement::If(c, then, otherwise) => ShownStatement::If(
            show(c),
            show_body(then),
            otherwise.as_ref().map(|b| show_body(b)),
        ),
        Statement::Function(name, params, body) => {
            ShownStatement::Function(name.clone(), Box::new((**params).clone()), show_body(body))
        }
        Statement::Assignment(name, e) => ShownStatement::Assignment(name.clone(), show(e)),
        Statement::Return(e) => ShownStatement::Return(show(e)),
        Statement::While(c, body) => ShownStatement::While(show(c), show_body(body)),
        Statement::For(name, e, body) => {
            ShownStatement::For(name.clone(), show(e), show_body(body))
        }
        Statement::Import(names) => ShownStatement::Import(
            names
                .iter()
                .map(|n| {
                    Box::new(match &**n {
                        Name::Name(a) => ShownName::Name(a.clone()),
                        Name::Alias(a, b) => ShownName::Alias(a.clone(), b.clone()),
                    })
                })
                .collect(),
        ),
        Statement::Try(body, catches) => ShownStatement::Try(
            show_body(body),
            catches.iter().map(|c| show_catch(c)).collect(),
        ),
    })
}

fn num(n: i32) -> Box<Expr> {
    Box::new(Expr::Integer(n))
}

fn float(x: f32) -> Box<Expr> {
    Box::new(Expr::Float(x.to_bits()))
}

fn string(s: &str) -> Box<Expr> {
    Box::new(Expr::Str(s.to_string()))
}

fn var(name: &str) -> Box<Expr> {
    Box::new(Expr::Variable(name.to_string()))
}

fn bin(l: Box<Expr>, op: Opcode, r: Box<Expr>) -> Box<Expr> {
    Box::new(Expr::BinaryOp(l, op, r))
}

fn list(items: Vec<Box<Expr>>) -> Box<Expr> {
    Box::new(Expr::List(items))
}

fn expr(e: Box<Expr>) -> Box<Statement> {
    Box::new(Statement::Expression(e))
}

fn print(arg: Box<Expr>) -> Box<Statement> {
    expr(Box::new(Expr::FunctionCall(var("print"), vec![arg])))
}

fn when(body: Vec<Box<Statement>>, elsebody: Option<Vec<Box<Statement>>>) -> Box<Statement> {
    Box::new(Statement::If(num(3), body, elsebody))
}

fn myfun(params: &[&str], body: Vec<Box<Statement>>) -> Box<Statement> {
    let params: Vec<String> = params.iter().map(|p| p.to_string()).collect();
    Box::new(Statement::Function("myfun".to_string(), Box::new(params), body))
}

fn sample() -> Vec<Box<Statement>> {
    let product = bin(bin(num(22), Opcode::Mul, num(22)), Opcode::Mul, num(23));
    let sum = bin(
        bin(
            bin(
                bin(list(vec![num(1), num(2), num(3), num(4)]), Opcode::Add, product),
                Opcode::Add,
                bin(num(5), Opcode::Pow, num(3)),
            ),
            Opcode::Add,
            string("str"),
        ),
        Opcode::Sub,
        float(36.2),
    );
    let funky = Box::new(Expr::FunctionCall(
        Box::new(Expr::AttrAccess(
            Box::new(Expr::ItemSubscription(
                Box::new(Expr::AttrAccess(string("Hello world!"), "myattr".to_string())),
                num(1),
            )),
            "funky".to_string(),
        )),
        vec![],
    ));
    vec![
        Box::new(Statement::If(num(4), vec![expr(var("abcde")), expr(sum)], None)),
        when(vec![expr(var("abcde"))], Some(vec![expr(var("cdef"))])),
        expr(list(vec![num(1), num(2), num(3)])),
        myfun(
            &["a", "b", "c"],
            vec![when(vec![print(Box::new(Expr::UnaryOp(Opcode::Sub, string("Hello world!"))))], None)],
        ),
        myfun(&[], vec![when(vec![print(Box::new(Expr::UnaryOp(Opcode::Add, funky)))], None)]),
        Box::new(Statement::While(
            num(3),
            vec![expr(var("adsf")), when(vec![expr(var("asdfs"))], None)],
        )),
    ]
}

fn same_expr(e: &Expr) {
    assert_eq!(text(expr_glyphs(e)), format!("{:#?}", show(e)));
}

fn same_statement(s: &Statement) {
    assert_eq!(text(statement_glyphs(s)), format!("{:#?}", show_statement(s)));
}

#[test]
fn literals_print_in_their_variant() {
    assert_eq!(text(expr_glyphs(&Expr::Integer(42))), "Integer(42)");
    assert_eq!(text(expr_glyphs(&Expr::Integer(-7))), "Integer(-7)");
    assert_eq!(text(expr_glyphs(&Expr::Integer(0))), "Integer(0)");
    assert_eq!(text(expr_glyphs(&Expr::Integer(i32::MIN))), "Integer(-2147483648)");
    assert_eq!(text(expr_glyphs(&Expr::Integer(i32::MAX))), "Integer(2147483647)");
    assert_eq!(text(expr_glyphs(&Expr::Integer(1000))), "Integer(1000)");
    assert_eq!(text(expr_glyphs(&Expr::Boolean(true))), "Boolean(true)");
    assert_eq!(text(expr_glyphs(&Expr::Boolean(false))), "Boolean(false)");
    assert_eq!(text(expr_glyphs(&Expr::Float(36.2f32.to_bits()))), "Float(36.2)");
    assert_eq!(text(expr_glyphs(&string("str"))), "Str(\"str\")");
    assert_eq!(text(expr_glyphs(&string("a\"b\n"))), "Str(\"a\\\"b\\n\")");
    assert_eq!(text(expr_glyphs(&var("abcde"))), "Variable(abcde)");
    assert_eq!(text(expr_glyphs(&Expr::Error)), "Error");
    assert_eq!(text(expr_glyphs(&Expr::Null)), "None");
}

#[test]
fn float_literal_is_left_as_a_glyph() {
    let glyphs = expr_glyphs(&Expr::Float(36.2f32.to_bits()));
    assert_eq!(glyphs.len(), 8);
    assert_eq!(glyphs[5], Glyph::Char('(' as u32));
    assert_eq!(glyphs[6], Glyph::Float(36.2f32.to_bits()));
    assert_eq!(glyphs[7], Glyph::Char(')' as u32));
}

#[test]
fn operators_print_their_operands_in_line() {
    let e = bin(num(5), Opcode::Pow, num(3));
    assert_eq!(text(expr_glyphs(&e)), "BinaryOp(Integer(5), Op::Pow, Integer(3))");
    let e = Expr::UnaryOp(Opcode::Sub, string("x"));
    assert_eq!(text(expr_glyphs(&e)), "UnaryOp(Op::Sub, Str(\"x\"))");
    let e = Expr::ItemSubscription(var("l"), num(1));
    assert_eq!(text(expr_glyphs(&e)), "ItemSubscription(Variable(l), index=Integer(1))");
    let e = Expr::AttrAccess(var("l"), "length".to_string());
    assert_eq!(text(expr_glyphs(&e)), "AttrAccess(Variable(l), attr=\"length\")");
}

#[test]
fn lists_print_one_entry_to_a_line() {
    assert_eq!(text(expr_glyphs(&list(vec![]))), "List([])");
    assert_eq!(
        text(expr_glyphs(&list(vec![num(1), num(2)]))),
        "List([\n    Integer(1),\n    Integer(2),\n])"
    );
    assert_eq!(
        text(expr_glyphs(&list(vec![list(vec![num(1)]), list(vec![])]))),
        "List([\n    List([\n        Integer(1),\n    ]),\n    List([]),\n])"
    );
    let call = Expr::FunctionCall(var("f"), vec![num(1)]);
    assert_eq!(
        text(expr_glyphs(&call)),
        "FunctionCall(Variable(f), args=[\n    Integer(1),\n])"
    );
}

#[test]
fn statements_print_in_their_variant() {
    assert_eq!(text(statement_glyphs(&expr(num(1)))), "Expression(Integer(1))");
    let s = Statement::Assignment("x".to_string(), num(1));
    assert_eq!(text(statement_glyphs(&s)), "Assignment(name=(\"x\"), value=Integer(1))");
    let s = Statement::Return(num(1));
    assert_eq!(text(statement_glyphs(&s)), "Return(Integer(1))");
    let s = Statement::If(num(1), vec![], None);
    assert_eq!(text(statement_glyphs(&s)), "If(cond=(Integer(1)), body=[], elsebody=None)");
    let s = Statement::If(num(1), vec![], Some(vec![]));
    assert_eq!(
        text(statement_glyphs(&s)),
        "If(cond=(Integer(1)), body=[], elsebody=Some(\n    [],\n))"
    );
    let s = Statement::While(num(1), vec![expr(num(2))]);
    assert_eq!(
        text(statement_glyphs(&s)),
        "While(cond=(Integer(1)), body=[\n    Expression(Integer(2)),\n])"
    );
    let s = Statement::Import(vec![Box::new(Name::Name("m".to_string()))]);
    assert_eq!(text(statement_glyphs(&s)), "Import(imports=([\n    Name(\"m\"),\n]))");
}

#[test]
fn handlers_print_their_optional_parts() {
    let c = Catch::Catch(None, None, vec![]);
    assert_eq!(text(catch_glyphs(&c)), "Catch(None, None, [])");
    let c = Catch::Catch(Some("e".to_string()), Some(var("IndexError")), vec![]);
    assert_eq!(
        text(catch_glyphs(&c)),
        "Catch(Some(\n    \"e\",\n), Some(\n    Variable(IndexError),\n), [])"
    );
}

#[test]
fn expressions_print_as_the_standard_formatter_prints_them() {
    same_expr(&num(-12345));
    same_expr(&float(f32::NAN));
    same_expr(&float(f32::INFINITY));
    same_expr(&float(-0.0));
    same_expr(&float(1.0e-40));
    same_expr(&float(16_777_216.0));
    same_expr(&string("tab\there \u{1F600} \u{0} \\ 'single'"));
    same_expr(&var("name with\nnewline"));
    same_expr(&list(vec![list(vec![list(vec![float(1.5), string("a\nb")])]), num(3)]));
    same_expr(&Expr::Function(
        "f".to_string(),
        Box::new(vec!["a".to_string(), "b\"c".to_string()]),
        vec![
            Box::new(Statement::Return(list(vec![var("a"), var("b")]))),
            Box::new(Statement::Function("g".to_string(), Box::new(vec![]), vec![])),
        ],
    ));
    same_expr(&Expr::Function("f".to_string(), Box::new(vec![]), vec![]));
    same_expr(&Expr::FunctionCall(
        Box::new(Expr::AttrAccess(list(vec![num(1)]), "x".to_string())),
        vec![list(vec![]), num(2)],
    ));
    for op in [
        Opcode::Mul,
        Opcode::Div,
        Opcode::Add,
        Opcode::Sub,
        Opcode::Pow,
        Opcode::Eq,
        Opcode::Ne,
        Opcode::Lt,
        Opcode::Le,
        Opcode::Gt,
        Opcode::Ge,
    ] {
        same_expr(&bin(num(1), op, list(vec![num(2)])));
    }
}

#[test]
fn statements_print_as_the_standard_formatter_prints_them() {
    same_statement(&Statement::Try(
        vec![expr(list(vec![num(1)])), Box::new(Statement::Return(Box::new(Expr::Null)))],
        vec![
            Box::new(Catch::Catch(
                Some("e".to_string()),
                Some(list(vec![var("IndexError"), var("TypeError")])),
                vec![Box::new(Statement::Assignment("x".to_string(), var("e")))],
            )),
            Box::new(Catch::Catch(None, Some(var("NameError")), vec![])),
            Box::new(Catch::Catch(Some("any".to_string()), None, vec![expr(num(1))])),
            Box::new(Catch::Catch(None, None, vec![])),
        ],
    ));
    same_statement(&Statement::Try(vec![], vec![]));
    same_statement(&Statement::For(
        "i".to_string(),
        list(vec![num(1), num(2)]),
        vec![when(vec![expr(var("i"))], Some(vec![when(vec![], Some(vec![expr(num(0))]))]))],
    ));
    same_statement(&Statement::Import(vec![
        Box::new(Name::Name("math".to_string())),
        Box::new(Name::Alias("os.path".to_string(), "p\"q".to_string())),
    ]));
    same_statement(&Statement::Import(vec![]));
    same_statement(&Statement::Function(
        "f".to_string(),
        Box::new(vec!["a".to_string()]),
        vec![Box::new(Statement::While(var("a"), vec![Box::new(Statement::Return(var("a")))]))],
    ));
}

#[test]
fn sample_program_prints_as_the_standard_formatter_prints_it() {
    for s in sample() {
        same_statement(&s);
    }
    let first = &sample()[1];
    assert_eq!(
        text(statement_glyphs(first)),
        "If(cond=(Integer(3)), body=[\n    Expression(Variable(abcde)),\n], elsebody=Some(\n    [\n        Expression(Variable(cdef)),\n    ],\n))"
    );
}
