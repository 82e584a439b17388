//! Evaluation core of a small dynamically typed scripting language.
//!
//! A program arrives as an already parsed [`ast::Module`]. The
//! [`machine::Machine`] walks it one transition at a time and looks after
//! variable scoping, closures, control flow, exception handling and the
//! operator semantics over the runtime [`value::Value`]s.
//!
//! The machine runs no code but its own. Whatever lies outside the core
//! (native functions, the resolution of imports and of attributes, and
//! arithmetic on floating-point numbers) it asks of its host: it stops
//! with a [`state::Request`], and goes on when the host has handed it a
//! [`state::Reply`]. A host therefore drives it in a loop of
//! [`machine::Machine::run`] and [`machine::Machine::resume`] until
//! [`machine::Machine::result`] tells how the program ended.
//!
//! What the machine does is laid down twice. [`semantics`] states one
//! transition of a mathematical model of its state, and every transition
//! of the machine is proved to be that transition of its model.
//! [`natural`] states what a whole expression, statement or program comes
//! to with a given host, and [`refinement`] proves that the transitions,
//! with the answers of that host in between, add up to just that.
//! [`laws`] holds what follows for every program.
//!
//! Where the language leaves a choice, the library makes it as follows.
//!
//! - Besides the arithmetic operators there are the comparisons `Eq`,
//!   `Ne`, `Lt`, `Le`, `Gt` and `Ge`. The first two compare any two values
//!   and give a boolean; the others order two numbers.
//! - Integer arithmetic wraps around in 32 bits. Division rounds towards
//!   zero. A zero divisor and a negative exponent are errors.
//! - Unary minus negates a number and unary plus hands a number back;
//!   both reject everything else. A list is joined to a list alone, and
//!   a string to a string alone.
//! - Only lists have elements to subscript.
//! - The name of every kind of error is bound, in the root frame, to a
//!   marker of the kind, which is what the filter of a handler names. An
//!   error carries a value, to which the variable of a handler is bound:
//!   the marker of its kind where the machine raised it, and what the
//!   host gave it where the host did.
//! - What is to be called must be a function before its arguments are
//!   evaluated.
//! - The bodies of `while`, `for`, `try` and of a handler each run in a
//!   frame of their own; the branches of an `if` run in the frame of the
//!   statement.
//! - Frames live as long as the machine: a closure may call for any of
//!   them at any time.
//!
//! The modules, leaves first:
//!
//! - [`ast`]: the syntax tree;
//! - [`print`]: the syntax tree in its printed form;
//! - [`number`]: floating-point numbers as bit patterns;
//! - [`value`]: the runtime values, their truthiness and equality;
//! - [`ops`]: the operators;
//! - [`env`]: the frames that bind the variables;
//! - [`state`]: the control of the machine and its stack of waiting work;
//! - [`semantics`]: the model and its transition;
//! - [`machine`]: the machine;
//! - [`natural`]: what a piece of program comes to as a whole;
//! - [`refinement`]: the transitions arrive at what the whole comes to;
//! - [`laws`]: the laws.

pub mod ast;
pub mod env;
pub mod laws;
pub mod machine;
pub mod natural;
pub mod number;
pub mod ops;
pub mod print;
pub mod refinement;
pub mod semantics;
pub mod state;
pub mod value;
