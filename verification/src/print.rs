//! The syntax tree in its printed form, as it is shown for debugging.
//!
//! A node prints as the name of its variant with its parts in brackets. A
//! list of parts prints one part to a line, indented by four spaces and
//! followed by a comma, between square brackets; an optional part prints
//! as `None`, or in the same way between `Some(` and `)`. Strings print
//! quoted.
//!
//! A floating-point literal is not printed here: it is left in the text
//! as a [`Glyph::Float`], for the caller to print the number.

use vstd::prelude::*;
use crate::ast::{Catch, Expr, Name, Opcode, Statement};

verus! {

/// The text that the standard library's debug formatting makes of a
/// string: the string between double quotes, with every character escaped
/// that needs it.
pub uninterp spec fn debug_quoted(s: Seq<char>) -> Seq<char>;

/// Formats a string with `{:#?}`, that is with `<str as Debug>::fmt` of the
/// standard library. The text depends on the characters of the string and
/// on nothing else, which is all that the contract claims: it gives the
/// text its name.
#[verifier::external_body]
fn quote(s: &str) -> (r: String)
    ensures
        r@ == debug_quoted(s@),
{
    format!("{:#?}", s)
}

impl Opcode {
    /// The text that stands for the operator in a printed tree.
    pub open spec fn debug_spec(self) -> Seq<char> {
        match self {
            Opcode::Mul => "Op::Mul"@,
            Opcode::Div => "Op::Div"@,
            Opcode::Add => "Op::Add"@,
            Opcode::Sub => "Op::Sub"@,
            Opcode::Pow => "Op::Pow"@,
            Opcode::Eq => "Op::Eq"@,
            Opcode::Ne => "Op::Ne"@,
            Opcode::Lt => "Op::Lt"@,
            Opcode::Le => "Op::Le"@,
            Opcode::Gt => "Op::Gt"@,
            Opcode::Ge => "Op::Ge"@,
        }
    }

    /// The text that stands for the operator in a printed tree.
    pub fn debug_text(self) -> (r: &'static str)
        ensures
            r@ == self.debug_spec(),
    {
        match self {
            Opcode::Mul => "Op::Mul",
            Opcode::Div => "Op::Div",
            Opcode::Add => "Op::Add",
            Opcode::Sub => "Op::Sub",
            Opcode::Pow => "Op::Pow",
            Opcode::Eq => "Op::Eq",
            Opcode::Ne => "Op::Ne",
            Opcode::Lt => "Op::Lt",
            Opcode::Le => "Op::Le",
            Opcode::Gt => "Op::Gt",
            Opcode::Ge => "Op::Ge",
        }
    }
}

impl Name {
    /// The text that stands for the name in a printed tree: the variant,
    /// and in brackets its strings as the standard library quotes them.
    pub open spec fn debug_spec(self) -> Seq<char> {
        match self {
            Name::Name(n) => "Name("@ + debug_quoted(n@) + ")"@,
            Name::Alias(n, a) => "Alias("@ + debug_quoted(n@) + ", "@ + debug_quoted(a@) + ")"@,
        }
    }

    /// The text that stands for the name in a printed tree.
    pub fn debug_text(&self) -> (r: String)
        ensures
            r@ == self.debug_spec(),
    {
        match self {
            Name::Name(n) => {
                let mut out = String::from_str("Name(");
                out.append(quote(n.as_str()).as_str());
                out.append(")");
                out
            },
            Name::Alias(n, a) => {
                let mut out = String::from_str("Alias(");
                out.append(quote(n.as_str()).as_str());
                out.append(", ");
                out.append(quote(a.as_str()).as_str());
                out.append(")");
                out
            },
        }
    }
}

/// One unit of printed text.
#[derive(Copy, Clone, Debug, PartialEq, Eq, Structural)]
pub enum Glyph {
    /// The character with this code point.
    Char(u32),
    /// The floating-point number with this bit pattern, which is yet to be
    /// printed.
    Float(u32),
}

/// The characters of `s` as printed text.
pub open spec fn glyphs(s: Seq<char>) -> Seq<Glyph> {
    Seq::new(s.len(), |i: int| Glyph::Char(s[i] as u32))
}

/// The unit that breaks a line.
pub open spec fn line_break() -> Glyph {
    Glyph::Char('\n' as u32)
}

/// Whether a line has just begun after `text` was printed, `fresh` saying
/// whether one had just begun before.
pub open spec fn ends_fresh(text: Seq<Glyph>, fresh: bool) -> bool {
    if text.len() == 0 {
        fresh
    } else {
        text.last() == line_break()
    }
}

/// The text with every line indented by four spaces. The indentation of a
/// line is printed with the first unit of the line, so that a text which
/// ends in a line break is not followed by spaces. `fresh` says whether
/// the text starts at the beginning of a line.
pub open spec fn indented(text: Seq<Glyph>, fresh: bool) -> Seq<Glyph>
    decreases text.len(),
{
    if text.len() == 0 {
        Seq::empty()
    } else {
        let before = text.drop_last();
        let margin = if ends_fresh(before, fresh) {
            glyphs("    "@)
        } else {
            Seq::empty()
        };
        indented(before, fresh) + margin + seq![text.last()]
    }
}

/// The first `n` entries of a list, each on lines of its own: indented,
/// and followed by a comma.
pub open spec fn rows(entries: Seq<Seq<Glyph>>, n: nat) -> Seq<Glyph>
    decreases n,
{
    if n == 0 || n > entries.len() {
        Seq::empty()
    } else {
        rows(entries, (n - 1) as nat) + indented(entries[n - 1] + glyphs(",\n"@), true)
    }
}

/// A list of entries: `[]` where there is none, and the entries on lines
/// of their own between square brackets where there are some.
pub open spec fn listed(entries: Seq<Seq<Glyph>>) -> Seq<Glyph> {
    if entries.len() == 0 {
        glyphs("[]"@)
    } else {
        glyphs("[\n"@) + rows(entries, entries.len()) + glyphs("]"@)
    }
}

/// An optional part: `None`, or the part on lines of its own between
/// `Some(` and `)`.
pub open spec fn optional(part: Option<Seq<Glyph>>) -> Seq<Glyph> {
    match part {
        Some(text) => glyphs("Some(\n"@) + indented(text + glyphs(",\n"@), true) + glyphs(")"@),
        None => glyphs("None"@),
    }
}

/// The decimal digit for `d`.
pub open spec fn digit(d: int) -> char {
    if d == 0 {
        '0'
    } else if d == 1 {
        '1'
    } else if d == 2 {
        '2'
    } else if d == 3 {
        '3'
    } else if d == 4 {
        '4'
    } else if d == 5 {
        '5'
    } else if d == 6 {
        '6'
    } else if d == 7 {
        '7'
    } else if d == 8 {
        '8'
    } else {
        '9'
    }
}

/// The decimal digits of a natural number, without leading zeros.
pub open spec fn decimal_nat(n: nat) -> Seq<char>
    decreases n,
{
    if n < 10 {
        seq![digit(n as int)]
    } else {
        decimal_nat(n / 10).push(digit((n % 10) as int))
    }
}

/// An integer in decimal, with a minus sign where it is negative.
pub open spec fn decimal(n: int) -> Seq<char> {
    if n < 0 {
        seq!['-'] + decimal_nat((-n) as nat)
    } else {
        decimal_nat(n as nat)
    }
}

/// The text of a string with one more character is the text of the
/// string with that character more.
pub proof fn lemma_glyphs_push(s: Seq<char>, c: char)
    ensures
        glyphs(s.push(c)) == glyphs(s).push(Glyph::Char(c as u32)),
{
    assert(glyphs(s.push(c)) =~= glyphs(s).push(Glyph::Char(c as u32)));
}

/// The text of one character.
pub proof fn lemma_glyphs_one(c: char)
    ensures
        glyphs(seq![c]) == seq![Glyph::Char(c as u32)],
{
    assert(glyphs(seq![c]) =~= seq![Glyph::Char(c as u32)]);
}

/// The text of two strings joined is their texts joined.
pub proof fn lemma_glyphs_concat(a: Seq<char>, b: Seq<char>)
    ensures
        glyphs(a + b) == glyphs(a) + glyphs(b),
{
    assert(glyphs(a + b) =~= glyphs(a) + glyphs(b));
}

/// Appends the characters of `s`.
fn put(out: &mut Vec<Glyph>, s: &str)
    ensures
        final(out)@ == old(out)@ + glyphs(s@),
{
    let ghost before = out@;
    let n = s.unicode_len();
    let mut i: usize = 0;
    assert(before + glyphs(s@.subrange(0, 0)) =~= before);
    while i < n
        invariant
            n == s@.len(),
            i <= n,
            out@ == before + glyphs(s@.subrange(0, i as int)),
        decreases n - i,
    {
        proof {
            lemma_glyphs_push(s@.subrange(0, i as int), s@[i as int]);
            assert(s@.subrange(0, i + 1) =~= s@.subrange(0, i as int).push(s@[i as int]));
        }
        out.push(Glyph::Char(s.get_char(i) as u32));
        i += 1;
        assert(out@ =~= before + glyphs(s@.subrange(0, i as int)));
    }
    assert(s@.subrange(0, n as int) =~= s@);
}

/// Appends the text `more`.
fn put_text(out: &mut Vec<Glyph>, more: Vec<Glyph>)
    ensures
        final(out)@ == old(out)@ + more@,
{
    let mut more = more;
    out.append(&mut more);
}

/// Indenting a text in two parts is indenting the parts in turn.
pub proof fn lemma_indented_concat(a: Seq<Glyph>, b: Seq<Glyph>, fresh: bool)
    ensures
        indented(a + b, fresh) == indented(a, fresh) + indented(b, ends_fresh(a, fresh)),
        ends_fresh(a + b, fresh) == ends_fresh(b, ends_fresh(a, fresh)),
    decreases b.len(),
{
    if b.len() == 0 {
        assert(a + b =~= a);
        assert(indented(a, fresh) + indented(b, ends_fresh(a, fresh)) =~= indented(a, fresh));
    } else {
        let init = b.drop_last();
        lemma_indented_concat(a, init, fresh);
        assert((a + b).drop_last() =~= a + init);
        assert((a + b).last() == b.last());
        let mid = ends_fresh(a, fresh);
        let margin = if ends_fresh(init, mid) {
            glyphs("    "@)
        } else {
            Seq::empty()
        };
        assert(indented(a + b, fresh) == indented(a + init, fresh) + margin + seq![b.last()]);
        assert(indented(b, mid) == indented(init, mid) + margin + seq![b.last()]);
        assert(indented(a + b, fresh) =~= indented(a, fresh) + indented(b, mid));
    }
}

/// Appends `text`, every line of it indented by four spaces. `fresh` says
/// whether a line has just begun; the result says so of the end.
fn put_indented(out: &mut Vec<Glyph>, text: &Vec<Glyph>, fresh: bool) -> (end: bool)
    ensures
        final(out)@ == old(out)@ + indented(text@, fresh),
        end == ends_fresh(text@, fresh),
{
    let ghost before = out@;
    let mut now = fresh;
    let mut i: usize = 0;
    assert(before + indented(text@.subrange(0, 0), fresh) =~= before);
    while i < text.len()
        invariant
            i <= text.len(),
            now == ends_fresh(text@.subrange(0, i as int), fresh),
            out@ == before + indented(text@.subrange(0, i as int), fresh),
        decreases text.len() - i,
    {
        let ghost done = text@.subrange(0, i as int);
        let ghost next = text@.subrange(0, i + 1);
        assert(next.drop_last() =~= done);
        assert(next.last() == text@[i as int]);
        if now {
            put(out, "    ");
        }
        let g = text[i];
        out.push(g);
        now = match g {
            Glyph::Char(c) => c == 10,
            Glyph::Float(_) => false,
        };
        i += 1;
        assert(out@ =~= before + indented(next, fresh));
    }
    assert(text@.subrange(0, text.len() as int) =~= text@);
    now
}

/// The texts of vectors of glyphs.
pub open spec fn views(entries: Seq<Vec<Glyph>>) -> Seq<Seq<Glyph>> {
    Seq::new(entries.len(), |i: int| entries[i]@)
}

/// Appends an entry of a list or an optional part on lines of its own:
/// indented, and followed by a comma.
fn put_row(out: &mut Vec<Glyph>, entry: &Vec<Glyph>)
    ensures
        final(out)@ == old(out)@ + indented(entry@ + glyphs(",\n"@), true),
{
    let ghost before = out@;
    let mut comma: Vec<Glyph> = Vec::new();
    put(&mut comma, ",\n");
    assert(comma@ =~= glyphs(",\n"@));
    let mid = put_indented(out, entry, true);
    let _ = put_indented(out, &comma, mid);
    proof {
        lemma_indented_concat(entry@, glyphs(",\n"@), true);
    }
    assert(out@ =~= before + indented(entry@ + glyphs(",\n"@), true));
}

/// Appends a list of entries.
fn put_listed(out: &mut Vec<Glyph>, entries: &Vec<Vec<Glyph>>)
    ensures
        final(out)@ == old(out)@ + listed(views(entries@)),
{
    let ghost before = out@;
    if entries.len() == 0 {
        put(out, "[]");
        return ;
    }
    put(out, "[\n");
    let mut i: usize = 0;
    assert(out@ =~= before + glyphs("[\n"@) + rows(views(entries@), 0));
    while i < entries.len()
        invariant
            i <= entries.len(),
            out@ == before + glyphs("[\n"@) + rows(views(entries@), i as nat),
        decreases entries.len() - i,
    {
        put_row(out, &entries[i]);
        i += 1;
        assert(out@ =~= before + glyphs("[\n"@) + rows(views(entries@), i as nat));
    }
    put(out, "]");
    assert(out@ =~= before + listed(views(entries@)));
}

/// Appends an optional part.
fn put_optional(out: &mut Vec<Glyph>, part: &Option<Vec<Glyph>>)
    ensures
        final(out)@ == old(out)@ + optional(
            match part {
                Some(text) => Some(text@),
                None => None,
            },
        ),
{
    let ghost before = out@;
    match part {
        Some(text) => {
            put(out, "Some(\n");
            put_row(out, text);
            put(out, ")");
            assert(out@ =~= before + optional(Some(text@)));
        },
        None => {
            put(out, "None");
        },
    }
}

/// The digits of `rest`, and none where `rest` is zero.
spec fn leading(rest: nat) -> Seq<char> {
    if rest == 0 {
        Seq::empty()
    } else {
        decimal_nat(rest)
    }
}

/// Appends an integer in decimal.
fn put_integer(out: &mut Vec<Glyph>, n: i32)
    ensures
        final(out)@ == old(out)@ + glyphs(decimal(n as int)),
{
    let ghost before = out@;
    let wide: i64 = n as i64;
    let size: u64 = if wide < 0 { (-wide) as u64 } else { wide as u64 };
    if n < 0 {
        out.push(Glyph::Char('-' as u32));
    }
    let ghost signed = out@;
    // the digits, lowest first
    let mut digits: Vec<Glyph> = Vec::new();
    let ghost mut low: Seq<char> = Seq::empty();
    let mut rest: u64 = size;
    let d0 = rest % 10;
    digits.push(Glyph::Char(digit_of(d0) as u32));
    proof {
        low = seq![digit(d0 as int)];
        assert(decimal_nat(size as nat) =~= leading((size / 10) as nat) + low);
        lemma_glyphs_one(digit(d0 as int));
    }
    rest = rest / 10;
    while rest > 0
        invariant
            out@ == signed,
            decimal_nat(size as nat) == leading(rest as nat) + low,
            digits@.reverse() == glyphs(low),
        decreases rest,
    {
        let d = rest % 10;
        let ghost old_low = low;
        let ghost old_digits = digits@;
        digits.push(Glyph::Char(digit_of(d) as u32));
        proof {
            low = seq![digit(d as int)] + old_low;
            assert(decimal_nat(rest as nat) =~= leading((rest / 10) as nat) + seq![
                digit(d as int),
            ]);
            assert(leading(rest as nat) + old_low =~= leading((rest / 10) as nat) + low);
            lemma_glyphs_concat(seq![digit(d as int)], old_low);
            lemma_glyphs_one(digit(d as int));
            assert(digits@.reverse() =~= seq![Glyph::Char(digit(d as int) as u32)]
                + old_digits.reverse());
        }
        rest = rest / 10;
    }
    assert(leading(0) + low =~= low);
    let mut k: usize = digits.len();
    while k > 0
        invariant
            k <= digits@.len(),
            out@ == signed + digits@.reverse().subrange(0, digits@.len() - k),
        decreases k,
    {
        k -= 1;
        out.push(digits[k]);
        assert(out@ =~= signed + digits@.reverse().subrange(0, digits@.len() - k));
    }
    assert(digits@.reverse().subrange(0, digits@.len() as int) =~= digits@.reverse());
    proof {
        if n < 0 {
            lemma_glyphs_concat(seq!['-'], decimal_nat(size as nat));
            lemma_glyphs_one('-');
        }
    }
    assert(out@ =~= before + glyphs(decimal(n as int)));
}

/// The decimal digit for `d`.
fn digit_of(d: u64) -> (c: char)
    requires
        d < 10,
    ensures
        c == digit(d as int),
{
    if d == 0 {
        '0'
    } else if d == 1 {
        '1'
    } else if d == 2 {
        '2'
    } else if d == 3 {
        '3'
    } else if d == 4 {
        '4'
    } else if d == 5 {
        '5'
    } else if d == 6 {
        '6'
    } else if d == 7 {
        '7'
    } else if d == 8 {
        '8'
    } else {
        '9'
    }
}

/// A string as it prints: quoted.
pub open spec fn quoted(s: Seq<char>) -> Seq<Glyph> {
    glyphs(debug_quoted(s))
}

/// The printed forms of strings.
pub open spec fn strings_texts(items: Seq<String>) -> Seq<Seq<Glyph>> {
    Seq::new(
        items.len(),
        |i: int|
            if 0 <= i < items.len() {
                quoted(items[i]@)
            } else {
                Seq::empty()
            },
    )
}

/// The printed forms of import names.
pub open spec fn names_texts(items: Seq<Box<Name>>) -> Seq<Seq<Glyph>> {
    Seq::new(
        items.len(),
        |i: int|
            if 0 <= i < items.len() {
                glyphs(items[i].debug_spec())
            } else {
                Seq::empty()
            },
    )
}

/// The printed forms of expressions.
pub open spec fn exprs_texts(items: Seq<Box<Expr>>) -> Seq<Seq<Glyph>>
    decreases items,
{
    Seq::new(
        items.len(),
        |i: int|
            if 0 <= i < items.len() {
                expr_text(*items[i])
            } else {
                Seq::empty()
            },
    )
}

/// The printed forms of statements.
pub open spec fn stmts_texts(items: Seq<Box<Statement>>) -> Seq<Seq<Glyph>>
    decreases items,
{
    Seq::new(
        items.len(),
        |i: int|
            if 0 <= i < items.len() {
                stmt_text(*items[i])
            } else {
                Seq::empty()
            },
    )
}

/// The printed forms of handlers.
pub open spec fn catches_texts(items: Seq<Box<Catch>>) -> Seq<Seq<Glyph>>
    decreases items,
{
    Seq::new(
        items.len(),
        |i: int|
            if 0 <= i < items.len() {
                catch_text(*items[i])
            } else {
                Seq::empty()
            },
    )
}

/// The printed form of an expression.
pub open spec fn expr_text(e: Expr) -> Seq<Glyph>
    decreases e,
{
    match e {
        Expr::Integer(n) => glyphs("Integer("@) + glyphs(decimal(n as int)) + glyphs(")"@),
        Expr::Float(bits) => glyphs("Float("@) + seq![Glyph::Float(bits)] + glyphs(")"@),
        Expr::Boolean(b) => glyphs("Boolean("@) + glyphs(
            if b {
                "true"@
            } else {
                "false"@
            },
        ) + glyphs(")"@),
        Expr::BinaryOp(l, op, r) => glyphs("BinaryOp("@) + expr_text(*l) + glyphs(", "@) + glyphs(
            op.debug_spec(),
        ) + glyphs(", "@) + expr_text(*r) + glyphs(")"@),
        Expr::UnaryOp(op, r) => glyphs("UnaryOp("@) + glyphs(op.debug_spec()) + glyphs(", "@)
            + expr_text(*r) + glyphs(")"@),
        Expr::Str(s) => glyphs("Str("@) + quoted(s@) + glyphs(")"@),
        Expr::List(l) => glyphs("List("@) + listed(exprs_texts(l@)) + glyphs(")"@),
        Expr::Variable(v) => glyphs("Variable("@) + glyphs(v@) + glyphs(")"@),
        Expr::FunctionCall(f, args) => glyphs("FunctionCall("@) + expr_text(*f) + glyphs(
            ", args="@,
        ) + listed(exprs_texts(args@)) + glyphs(")"@),
        Expr::ItemSubscription(t, i) => glyphs("ItemSubscription("@) + expr_text(*t) + glyphs(
            ", index="@,
        ) + expr_text(*i) + glyphs(")"@),
        Expr::AttrAccess(t, attr) => glyphs("AttrAccess("@) + expr_text(*t) + glyphs(", attr="@)
            + quoted(attr@) + glyphs(")"@),
        Expr::Error => glyphs("Error"@),
        Expr::Function(name, params, body) => glyphs("Function("@) + quoted(name@) + glyphs(
            ", args="@,
        ) + listed(strings_texts(params@)) + glyphs(", body="@) + listed(stmts_texts(body@))
            + glyphs(", )"@),
        Expr::Null => glyphs("None"@),
    }
}

/// The printed form of a statement.
pub open spec fn stmt_text(s: Statement) -> Seq<Glyph>
    decreases s,
{
    match s {
        Statement::Expression(e) => glyphs("Expression("@) + expr_text(*e) + glyphs(")"@),
        Statement::If(c, then, otherwise) => glyphs("If(cond=("@) + expr_text(*c) + glyphs(
            "), body="@,
        ) + listed(stmts_texts(then@)) + glyphs(", elsebody="@) + optional(
            match otherwise {
                Some(b) => Some(listed(stmts_texts(b@))),
                None => None,
            },
        ) + glyphs(")"@),
        Statement::Function(name, params, body) => glyphs("Function(name=("@) + quoted(name@)
            + glyphs("), args="@) + listed(strings_texts(params@)) + glyphs(", body="@) + listed(
            stmts_texts(body@),
        ) + glyphs(")"@),
        Statement::Assignment(name, e) => glyphs("Assignment(name=("@) + quoted(name@) + glyphs(
            "), value="@,
        ) + expr_text(*e) + glyphs(")"@),
        Statement::Return(e) => glyphs("Return("@) + expr_text(*e) + glyphs(")"@),
        Statement::While(c, body) => glyphs("While(cond=("@) + expr_text(*c) + glyphs(
            "), body="@,
        ) + listed(stmts_texts(body@)) + glyphs(")"@),
        Statement::For(name, e, body) => glyphs("For(name=("@) + quoted(name@) + glyphs(
            "), value="@,
        ) + expr_text(*e) + glyphs(", body="@) + listed(stmts_texts(body@)) + glyphs(")"@),
        Statement::Import(names) => glyphs("Import(imports=("@) + listed(names_texts(names@))
            + glyphs("))"@),
        Statement::Try(body, catches) => glyphs("Try("@) + listed(stmts_texts(body@)) + glyphs(
            ", "@,
        ) + listed(catches_texts(catches@)) + glyphs(")"@),
    }
}

/// The printed form of a handler.
pub open spec fn catch_text(c: Catch) -> Seq<Glyph>
    decreases c,
{
    match c {
        Catch::Catch(name, filter, body) => glyphs("Catch("@) + optional(
            match name {
                Some(n) => Some(quoted(n@)),
                None => None,
            },
        ) + glyphs(", "@) + optional(
            match filter {
                Some(f) => Some(expr_text(*f)),
                None => None,
            },
        ) + glyphs(", "@) + listed(stmts_texts(body@)) + glyphs(")"@),
    }
}

/// The printed form of a string.
fn quoted_glyphs(s: &String) -> (r: Vec<Glyph>)
    ensures
        r@ == quoted(s@),
{
    let mut out: Vec<Glyph> = Vec::new();
    put(&mut out, quote(s.as_str()).as_str());
    assert(out@ =~= quoted(s@));
    out
}

/// The printed forms of strings.
fn strings_glyphs(items: &Vec<String>) -> (r: Vec<Vec<Glyph>>)
    ensures
        views(r@) == strings_texts(items@),
{
    let mut r: Vec<Vec<Glyph>> = Vec::new();
    let mut i: usize = 0;
    while i < items.len()
        invariant
            i <= items.len(),
            r@.len() == i,
            forall|j: int| 0 <= j < i ==> (#[trigger] r@[j])@ == quoted(items@[j]@),
        decreases items.len() - i,
    {
        r.push(quoted_glyphs(&items[i]));
        i += 1;
    }
    assert(views(r@) =~= strings_texts(items@));
    r
}

/// The printed forms of import names.
fn names_glyphs(items: &Vec<Box<Name>>) -> (r: Vec<Vec<Glyph>>)
    ensures
        views(r@) == names_texts(items@),
{
    let mut r: Vec<Vec<Glyph>> = Vec::new();
    let mut i: usize = 0;
    while i < items.len()
        invariant
            i <= items.len(),
            r@.len() == i,
            forall|j: int| 0 <= j < i ==> (#[trigger] r@[j])@ == glyphs(items@[j].debug_spec()),
        decreases items.len() - i,
    {
        let mut text: Vec<Glyph> = Vec::new();
        put(&mut text, items[i].debug_text().as_str());
        assert(text@ =~= glyphs(items@[i as int].debug_spec()));
        r.push(text);
        i += 1;
    }
    assert(views(r@) =~= names_texts(items@));
    r
}

/// The printed forms of expressions.
fn exprs_glyphs(items: &Vec<Box<Expr>>) -> (r: Vec<Vec<Glyph>>)
    ensures
        views(r@) == exprs_texts(items@),
    decreases items,
{
    let mut r: Vec<Vec<Glyph>> = Vec::new();
    let mut i: usize = 0;
    while i < items.len()
        invariant
            i <= items.len(),
            r@.len() == i,
            forall|j: int| 0 <= j < i ==> (#[trigger] r@[j])@ == expr_text(*items@[j]),
        decreases items.len() - i,
    {
        proof {
            assert(decreases_to!(items => items[i as int]));
        }
        r.push(expr_glyphs(&items[i]));
        i += 1;
    }
    assert(views(r@) =~= exprs_texts(items@));
    r
}

/// The printed forms of statements.
fn stmts_glyphs(items: &Vec<Box<Statement>>) -> (r: Vec<Vec<Glyph>>)
    ensures
        views(r@) == stmts_texts(items@),
    decreases items,
{
    let mut r: Vec<Vec<Glyph>> = Vec::new();
    let mut i: usize = 0;
    while i < items.len()
        invariant
            i <= items.len(),
            r@.len() == i,
            forall|j: int| 0 <= j < i ==> (#[trigger] r@[j])@ == stmt_text(*items@[j]),
        decreases items.len() - i,
    {
        proof {
            assert(decreases_to!(items => items[i as int]));
        }
        r.push(statement_glyphs(&items[i]));
        i += 1;
    }
    assert(views(r@) =~= stmts_texts(items@));
    r
}

/// The printed forms of handlers.
fn catches_glyphs(items: &Vec<Box<Catch>>) -> (r: Vec<Vec<Glyph>>)
    ensures
        views(r@) == catches_texts(items@),
    decreases items,
{
    let mut r: Vec<Vec<Glyph>> = Vec::new();
    let mut i: usize = 0;
    while i < items.len()
        invariant
            i <= items.len(),
            r@.len() == i,
            forall|j: int| 0 <= j < i ==> (#[trigger] r@[j])@ == catch_text(*items@[j]),
        decreases items.len() - i,
    {
        proof {
            assert(decreases_to!(items => items[i as int]));
        }
        r.push(catch_glyphs(&items[i]));
        i += 1;
    }
    assert(views(r@) =~= catches_texts(items@));
    r
}

/// The printed form of an expression, with every floating-point literal
/// left as a [`Glyph::Float`].
pub fn expr_glyphs(e: &Expr) -> (r: Vec<Glyph>)
    ensures
        r@ == expr_text(*e),
    decreases e,
{
    let mut out: Vec<Glyph> = Vec::new();
    match e {
        Expr::Integer(n) => {
            put(&mut out, "Integer(");
            put_integer(&mut out, *n);
            put(&mut out, ")");
        },
        Expr::Float(bits) => {
            put(&mut out, "Float(");
            out.push(Glyph::Float(*bits));
            put(&mut out, ")");
        },
        Expr::Boolean(b) => {
            put(&mut out, "Boolean(");
            if *b {
                put(&mut out, "true");
            } else {
                put(&mut out, "false");
            }
            put(&mut out, ")");
        },
        Expr::BinaryOp(l, op, r) => {
            put(&mut out, "BinaryOp(");
            put_text(&mut out, expr_glyphs(l));
            put(&mut out, ", ");
            put(&mut out, op.debug_text());
            put(&mut out, ", ");
            put_text(&mut out, expr_glyphs(r));
            put(&mut out, ")");
        },
        Expr::UnaryOp(op, r) => {
            put(&mut out, "UnaryOp(");
            put(&mut out, op.debug_text());
            put(&mut out, ", ");
            put_text(&mut out, expr_glyphs(r));
            put(&mut out, ")");
        },
        Expr::Str(s) => {
            put(&mut out, "Str(");
            put_text(&mut out, quoted_glyphs(s));
            put(&mut out, ")");
        },
        Expr::List(l) => {
            put(&mut out, "List(");
            let entries = exprs_glyphs(l);
            put_listed(&mut out, &entries);
            put(&mut out, ")");
        },
        Expr::Variable(v) => {
            put(&mut out, "Variable(");
            put(&mut out, v.as_str());
            put(&mut out, ")");
        },
        Expr::FunctionCall(f, args) => {
            put(&mut out, "FunctionCall(");
            put_text(&mut out, expr_glyphs(f));
            put(&mut out, ", args=");
            let entries = exprs_glyphs(args);
            put_listed(&mut out, &entries);
            put(&mut out, ")");
        },
        Expr::ItemSubscription(t, i) => {
            put(&mut out, "ItemSubscription(");
            put_text(&mut out, expr_glyphs(t));
            put(&mut out, ", index=");
            put_text(&mut out, expr_glyphs(i));
            put(&mut out, ")");
        },
        Expr::AttrAccess(t, attr) => {
            put(&mut out, "AttrAccess(");
            put_text(&mut out, expr_glyphs(t));
            put(&mut out, ", attr=");
            put_text(&mut out, quoted_glyphs(attr));
            put(&mut out, ")");
        },
        Expr::Error => {
            put(&mut out, "Error");
        },
        Expr::Function(name, params, body) => {
            put(&mut out, "Function(");
            put_text(&mut out, quoted_glyphs(name));
            put(&mut out, ", args=");
            let names = strings_glyphs(params);
            put_listed(&mut out, &names);
            put(&mut out, ", body=");
            let entries = stmts_glyphs(body);
            put_listed(&mut out, &entries);
            put(&mut out, ", )");
        },
        Expr::Null => {
            put(&mut out, "None");
        },
    }
    assert(out@ =~= expr_text(*e));
    out
}

/// The printed form of a statement, with every floating-point literal
/// left as a [`Glyph::Float`].
pub fn statement_glyphs(s: &Statement) -> (r: Vec<Glyph>)
    ensures
        r@ == stmt_text(*s),
    decreases s,
{
    let mut out: Vec<Glyph> = Vec::new();
    match s {
        Statement::Expression(e) => {
            put(&mut out, "Expression(");
            put_text(&mut out, expr_glyphs(e));
            put(&mut out, ")");
        },
        Statement::If(c, then, otherwise) => {
            put(&mut out, "If(cond=(");
            put_text(&mut out, expr_glyphs(c));
            put(&mut out, "), body=");
            let entries = stmts_glyphs(then);
            put_listed(&mut out, &entries);
            put(&mut out, ", elsebody=");
            let part = match otherwise {
                Some(b) => {
                    let mut text: Vec<Glyph> = Vec::new();
                    let entries = stmts_glyphs(b);
                    put_listed(&mut text, &entries);
                    assert(text@ =~= listed(stmts_texts(b@)));
                    Some(text)
                },
                None => None,
            };
            put_optional(&mut out, &part);
            put(&mut out, ")");
        },
        Statement::Function(name, params, body) => {
            put(&mut out, "Function(name=(");
            put_text(&mut out, quoted_glyphs(name));
            put(&mut out, "), args=");
            let names = strings_glyphs(params);
            put_listed(&mut out, &names);
            put(&mut out, ", body=");
            let entries = stmts_glyphs(body);
            put_listed(&mut out, &entries);
            put(&mut out, ")");
        },
        Statement::Assignment(name, e) => {
            put(&mut out, "Assignment(name=(");
            put_text(&mut out, quoted_glyphs(name));
            put(&mut out, "), value=");
            put_text(&mut out, expr_glyphs(e));
            put(&mut out, ")");
        },
        Statement::Return(e) => {
            put(&mut out, "Return(");
            put_text(&mut out, expr_glyphs(e));
            put(&mut out, ")");
        },
        Statement::While(c, body) => {
            put(&mut out, "While(cond=(");
            put_text(&mut out, expr_glyphs(c));
            put(&mut out, "), body=");
            let entries = stmts_glyphs(body);
            put_listed(&mut out, &entries);
            put(&mut out, ")");
        },
        Statement::For(name, e, body) => {
            put(&mut out, "For(name=(");
            put_text(&mut out, quoted_glyphs(name));
            put(&mut out, "), value=");
            put_text(&mut out, expr_glyphs(e));
            put(&mut out, ", body=");
            let entries = stmts_glyphs(body);
            put_listed(&mut out, &entries);
            put(&mut out, ")");
        },
        Statement::Import(names) => {
            put(&mut out, "Import(imports=(");
            let entries = names_glyphs(names);
            put_listed(&mut out, &entries);
            put(&mut out, "))");
        },
        Statement::Try(body, catches) => {
            put(&mut out, "Try(");
            let entries = stmts_glyphs(body);
            put_listed(&mut out, &entries);
            put(&mut out, ", ");
            let handlers = catches_glyphs(catches);
            put_listed(&mut out, &handlers);
            put(&mut out, ")");
        },
    }
    assert(out@ =~= stmt_text(*s));
    out
}

/// The printed form of a handler, with every floating-point literal left
/// as a [`Glyph::Float`].
pub fn catch_glyphs(c: &Catch) -> (r: Vec<Glyph>)
    ensures
        r@ == catch_text(*c),
    decreases c,
{
    let mut out: Vec<Glyph> = Vec::new();
    match c {
        Catch::Catch(name, filter, body) => {
            put(&mut out, "Catch(");
            let first = match name {
                Some(n) => Some(quoted_glyphs(n)),
                None => None,
            };
            put_optional(&mut out, &first);
            put(&mut out, ", ");
            let second = match filter {
                Some(f) => Some(expr_glyphs(f)),
                None => None,
            };
            put_optional(&mut out, &second);
            put(&mut out, ", ");
            let entries = stmts_glyphs(body);
            put_listed(&mut out, &entries);
            put(&mut out, ")");
        },
    }
    assert(out@ =~= catch_text(*c));
    out
}

} // verus!
